//! Filling a template: each `{name}` is replaced by the value of `name`,
//! `{{` stands for `{` and `}}` for `}`.
use vstd::prelude::*;
use crate::postprocess::{name_lookup, pairs_view, name_position};
use crate::text::{chars_of, string_of};

verus! {

/// Why a template cannot be filled.
#[derive(Debug, Clone, PartialEq, Eq)]
pub enum TemplateError {
    /// A `{` without its `}`.
    Unclosed,
    /// A `}` that closes nothing.
    SingleClose,
    /// A name with no value.
    MissingKey(String),
}

/// The mathematical value of a `TemplateError`.
pub enum TemplateErrorView {
    Unclosed,
    SingleClose,
    MissingKey(Seq<char>),
}

impl View for TemplateError {
    type V = TemplateErrorView;

    open spec fn view(&self) -> TemplateErrorView {
        match self {
            TemplateError::Unclosed => TemplateErrorView::Unclosed,
            TemplateError::SingleClose => TemplateErrorView::SingleClose,
            TemplateError::MissingKey(k) => TemplateErrorView::MissingKey(k@),
        }
    }
}

/// The index of the first `}` in `t` at or after `from`.
pub open spec fn close_index(t: Seq<char>, from: int) -> Option<int>
    decreases t.len() - from,
{
    if from < 0 || from >= t.len() {
        None
    } else if t[from] == '}' {
        Some(from)
    } else {
        close_index(t, from + 1)
    }
}

/// `t` filled with the values `m`.
pub open spec fn fill(t: Seq<char>, m: Seq<(Seq<char>, Seq<char>)>) -> Result<Seq<char>, TemplateErrorView>
    decreases t.len(),
{
    if t.len() == 0 {
        Ok(Seq::empty())
    } else if t[0] == '{' {
        if t.len() >= 2 && t[1] == '{' {
            prepend(seq!['{'], fill(t.skip(2), m))
        } else {
            match close_index(t, 1) {
                None => Err(TemplateErrorView::Unclosed),
                Some(j) => match name_lookup(m, t.subrange(1, j)) {
                    None => Err(TemplateErrorView::MissingKey(t.subrange(1, j))),
                    Some(v) => {
                        if 1 <= j < t.len() {
                            prepend(v, fill(t.skip(j + 1), m))
                        } else {
                            Err(TemplateErrorView::Unclosed)
                        }
                    },
                },
            }
        }
    } else if t[0] == '}' {
        if t.len() >= 2 && t[1] == '}' {
            prepend(seq!['}'], fill(t.skip(2), m))
        } else {
            Err(TemplateErrorView::SingleClose)
        }
    } else {
        prepend(seq![t[0]], fill(t.skip(1), m))
    }
}

/// `p` before the text of `r`, errors unchanged.
pub open spec fn prepend(p: Seq<char>, r: Result<Seq<char>, TemplateErrorView>) -> Result<Seq<char>, TemplateErrorView> {
    match r {
        Ok(s) => Ok(p + s),
        Err(e) => Err(e),
    }
}

proof fn lemma_close_index(t: Seq<char>, from: int)
    requires
        0 <= from,
    ensures
        close_index(t, from) matches Some(j) ==> from <= j < t.len() && t[j] == '}' && forall|k: int|
            from <= k < j ==> t[k] != '}',
        close_index(t, from) is None ==> forall|k: int| from <= k < t.len() ==> t[k] != '}',
    decreases t.len() - from,
{
    if from < t.len() && t[from] != '}' {
        lemma_close_index(t, from + 1);
    }
}

proof fn lemma_prepend_assoc(a: Seq<char>, b: Seq<char>, r: Result<Seq<char>, TemplateErrorView>)
    ensures
        prepend(a, prepend(b, r)) == prepend(a + b, r),
{
    if let Ok(s) = r {
        assert(a + (b + s) =~= (a + b) + s);
    }
}

/// Fills the template `template` with the values `replacements`.
pub fn fill_template(template: &str, replacements: &Vec<(String, String)>) -> (r: Result<String, TemplateError>)
    ensures
        match fill(template@, pairs_view(replacements@)) {
            Ok(s) => r matches Ok(x) && x@ == s,
            Err(e) => r matches Err(x) && x@ == e,
        },
{
    let t = chars_of(template);
    let ghost m = pairs_view(replacements@);
    let mut out: Vec<char> = Vec::new();
    let mut i: usize = 0;
    assert(t@.skip(0) =~= t@);
    assert(prepend(out@, fill(t@.skip(0), m)) == fill(t@, m)) by {
        assert(out@ =~= Seq::<char>::empty());
        match fill(t@, m) {
            Ok(s) => {
                assert(Seq::<char>::empty() + s =~= s);
            },
            Err(_) => {},
        }
    }
    while i < t.len()
        invariant
            i <= t@.len(),
            t@ == template@,
            m == pairs_view(replacements@),
            prepend(out@, fill(t@.skip(i as int), m)) == fill(t@, m),
        decreases t@.len() - i,
    {
        let ghost rest = t@.skip(i as int);
        let c = t[i];
        assert(rest[0] == c);
        if c == '{' {
            if i + 1 < t.len() && t[i + 1] == '{' {
                proof {
                    assert(rest.skip(2) =~= t@.skip(i + 2));
                    assert(rest[1] == t@[i + 1]);
                    assert(fill(rest, m) == prepend(seq!['{'], fill(rest.skip(2), m)));
                    lemma_prepend_assoc(out@, seq!['{'], fill(rest.skip(2), m));
                }
                let ghost before = out@;
                out.push('{');
                assert(out@ =~= before + seq!['{']);
                i += 2;
            } else {
                let mut j: usize = i + 1;
                while j < t.len() && t[j] != '}'
                    invariant
                        i + 1 <= j <= t@.len(),
                        forall|k: int| i + 1 <= k < j ==> t@[k] != '}',
                    decreases t@.len() - j,
                {
                    j += 1;
                }
                proof {
                    lemma_close_index(rest, 1);
                }
                if j == t.len() {
                    proof {
                        if let Some(x) = close_index(rest, 1) {
                            assert(rest[x] == t@[i + x]);
                        }
                    }
                    return Err(TemplateError::Unclosed);
                }
                let key_chars = slice_chars(&t, i + 1, j);
                let key = string_of(&key_chars);
                proof {
                    let x = j - i;
                    assert(close_index(rest, 1) == Some(x as int)) by {
                        match close_index(rest, 1) {
                            Some(y) => {
                                if y < x {
                                    assert(rest[y] == t@[i + y]);
                                }
                                if y > x {
                                    assert(rest[x as int] == t@[j as int]);
                                }
                            },
                            None => {
                                assert(rest[x as int] == t@[j as int]);
                            },
                        }
                    }
                    assert(rest.subrange(1, x as int) =~= key@);
                }
                match lookup(replacements, &key) {
                    None => {
                        return Err(TemplateError::MissingKey(key));
                    },
                    Some(v) => {
                        proof {
                            let x = j - i;
                            assert(rest.skip(x + 1) =~= t@.skip(j + 1));
                            assert(fill(rest, m) == prepend(v@, fill(rest.skip(x + 1), m)));
                            lemma_prepend_assoc(out@, v@, fill(rest.skip(x + 1), m));
                        }
                        let vc = chars_of(v.as_str());
                        append_chars(&mut out, &vc);
                        i = j + 1;
                    },
                }
            }
        } else if c == '}' {
            if i + 1 < t.len() && t[i + 1] == '}' {
                proof {
                    assert(rest.skip(2) =~= t@.skip(i + 2));
                    assert(rest[1] == t@[i + 1]);
                    assert(fill(rest, m) == prepend(seq!['}'], fill(rest.skip(2), m)));
                    lemma_prepend_assoc(out@, seq!['}'], fill(rest.skip(2), m));
                }
                let ghost before = out@;
                out.push('}');
                assert(out@ =~= before + seq!['}']);
                i += 2;
            } else {
                return Err(TemplateError::SingleClose);
            }
        } else {
            proof {
                assert(rest.skip(1) =~= t@.skip(i + 1));
                assert(fill(rest, m) == prepend(seq![c], fill(rest.skip(1), m)));
                lemma_prepend_assoc(out@, seq![c], fill(rest.skip(1), m));
            }
            let ghost before = out@;
            out.push(c);
            assert(out@ =~= before + seq![c]);
            i += 1;
        }
    }
    proof {
        assert(t@.skip(i as int) =~= Seq::<char>::empty());
        assert(out@ + Seq::<char>::empty() =~= out@);
    }
    Ok(string_of(&out))
}

/// The characters `v[from..to]`.
fn slice_chars(v: &Vec<char>, from: usize, to: usize) -> (r: Vec<char>)
    requires
        from <= to <= v@.len(),
    ensures
        r@ == v@.subrange(from as int, to as int),
{
    let mut r: Vec<char> = Vec::new();
    let mut k: usize = from;
    while k < to
        invariant
            from <= k <= to,
            to <= v@.len(),
            r@ == v@.subrange(from as int, k as int),
        decreases to - k,
    {
        r.push(v[k]);
        assert(v@.subrange(from as int, k + 1) =~= v@.subrange(from as int, k as int).push(v@[k as int]));
        k += 1;
    }
    r
}

/// Appends the characters `w` to `v`.
fn append_chars(v: &mut Vec<char>, w: &Vec<char>)
    ensures
        final(v)@ == old(v)@ + w@,
{
    let mut k: usize = 0;
    while k < w.len()
        invariant
            k <= w@.len(),
            v@ == old(v)@ + w@.take(k as int),
        decreases w@.len() - k,
    {
        v.push(w[k]);
        assert(old(v)@ + w@.take(k + 1) =~= (old(v)@ + w@.take(k as int)).push(w@[k as int]));
        k += 1;
    }
    assert(w@.take(w@.len() as int) =~= w@);
}

/// The value of `key` among `entries` (the first entry with that name).
pub fn lookup<'a>(entries: &'a Vec<(String, String)>, key: &String) -> (r: Option<&'a String>)
    ensures
        r matches Some(v) ==> name_lookup(pairs_view(entries@), key@) == Some(v@),
        r is None ==> name_lookup(pairs_view(entries@), key@) is None,
{
    let ghost pv = pairs_view(entries@);
    proof {
        crate::postprocess::lemma_name_position(pv, key@);
    }
    let mut i: usize = 0;
    while i < entries.len()
        invariant
            i <= entries@.len(),
            pv == pairs_view(entries@),
            forall|j: int| 0 <= j < i ==> pv[j].0 != key@,
            name_position(pv, key@) matches Some(p) ==> 0 <= p < pv.len() && pv[p].0 == key@ && forall|j: int|
                0 <= j < p ==> pv[j].0 != key@,
            name_position(pv, key@) is None ==> forall|j: int| 0 <= j < pv.len() ==> pv[j].0 != key@,
        decreases entries@.len() - i,
    {
        if entries[i].0 == *key {
            proof {
                assert(pv[i as int].0 == key@);
                match name_position(pv, key@) {
                    Some(p) => {
                        if p < i {
                            assert(pv[p].0 != key@);
                        }
                        if p > i {
                            assert(pv[i as int].0 != key@);
                        }
                    },
                    None => {
                        assert(pv[i as int].0 != key@);
                    },
                }
            }
            return Some(&entries[i].1);
        }
        i += 1;
    }
    None
}

/// A template without braces is filled to itself, whatever the values.
pub proof fn lemma_fill_plain(t: Seq<char>, m: Seq<(Seq<char>, Seq<char>)>)
    requires
        forall|i: int| 0 <= i < t.len() ==> #[trigger] t[i] != '{' && t[i] != '}',
    ensures
        fill(t, m) == Ok::<Seq<char>, TemplateErrorView>(t),
    decreases t.len(),
{
    if t.len() > 0 {
        assert(t[0] != '{' && t[0] != '}');
        let rest = t.skip(1);
        assert forall|i: int| 0 <= i < rest.len() implies #[trigger] rest[i] != '{' && rest[i] != '}' by {
            assert(rest[i] == t[i + 1]);
        }
        lemma_fill_plain(rest, m);
        assert(fill(t, m) == prepend(seq![t[0]], fill(rest, m)));
        assert(seq![t[0]] + rest =~= t);
    } else {
        assert(t =~= Seq::<char>::empty());
    }
}

/// A placeholder is filled with the value of its name.
pub proof fn lemma_fill_placeholder(key: Seq<char>, m: Seq<(Seq<char>, Seq<char>)>)
    requires
        forall|i: int| 0 <= i < key.len() ==> #[trigger] key[i] != '}',
        key.len() == 0 || key[0] != '{',
        name_lookup(m, key) is Some,
    ensures
        fill(seq!['{'] + key + seq!['}'], m) == Ok::<Seq<char>, TemplateErrorView>(name_lookup(m, key)->Some_0),
{
    let t = seq!['{'] + key + seq!['}'];
    let j: int = key.len() as int + 1;
    lemma_close_index(t, 1);
    assert(t[j] == '}');
    assert forall|k: int| 1 <= k < j implies t[k] != '}' by {
        assert(t[k] == key[k - 1]);
    }
    if let Some(x) = close_index(t, 1) {
        if x < j {
            assert(t[x] != '}');
        }
        if x > j {
            assert(t[j as int] != '}');
        }
    }
    assert(close_index(t, 1) == Some(j as int));
    assert(t.subrange(1, j as int) =~= key);
    if key.len() > 0 {
        assert(t[1] == key[0]);
    } else {
        assert(t[1] == '}');
    }
    assert(t.skip(j + 1) =~= Seq::<char>::empty());
    let v = name_lookup(m, key)->Some_0;
    assert(fill(t.skip(j + 1), m) == Ok::<Seq<char>, TemplateErrorView>(Seq::<char>::empty()));
    assert(t.len() == j + 1);
    assert(fill(t, m) == prepend(v, fill(t.skip(j + 1), m)));
    assert(v + Seq::<char>::empty() =~= v);
}

} // verus!
