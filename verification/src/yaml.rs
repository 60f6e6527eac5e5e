//! The library's model of a parsed YAML document (what `serde_yaml::Value`
//! holds), and lookups and updates of parameters by slash-separated paths.
use vstd::prelude::*;
use crate::text::chars_of;
use crate::text::string_of;

verus! {

/// A parsed YAML value.
///
/// A float is held as a pair: an integer that orders floats as `OrderedFloat`
/// does (equal keys for equal floats), and the float's decimal representation.
#[derive(Debug, PartialEq)]
pub enum YamlValue {
    Null,
    Bool(bool),
    Int(i64),
    /// An integer above `i64::MAX`.
    UInt(u64),
    Float(u64, String),
    Str(String),
    Sequence(Vec<YamlValue>),
    Mapping(Vec<(YamlValue, YamlValue)>),
}

/// The mathematical value of a `YamlValue`.
pub enum YamlView {
    Null,
    Bool(bool),
    Int(i64),
    UInt(u64),
    Float(u64, Seq<char>),
    Str(Seq<char>),
    Sequence(Seq<YamlView>),
    Mapping(Seq<(YamlView, YamlView)>),
}

/// The mathematical value of a YAML value.
pub open spec fn yaml_view(v: YamlValue) -> YamlView
    decreases v,
{
    match v {
        YamlValue::Null => YamlView::Null,
        YamlValue::Bool(b) => YamlView::Bool(b),
        YamlValue::Int(i) => YamlView::Int(i),
        YamlValue::UInt(u) => YamlView::UInt(u),
        YamlValue::Float(k, s) => YamlView::Float(k, s@),
        YamlValue::Str(s) => YamlView::Str(s@),
        YamlValue::Sequence(items) => YamlView::Sequence(
            Seq::new(
                items@.len(),
                |i: int|
                    if 0 <= i < items@.len() {
                        yaml_view(items@[i])
                    } else {
                        YamlView::Null
                    },
            ),
        ),
        YamlValue::Mapping(entries) => YamlView::Mapping(
            Seq::new(
                entries@.len(),
                |i: int|
                    if 0 <= i < entries@.len() {
                        (yaml_view(entries@[i].0), yaml_view(entries@[i].1))
                    } else {
                        (YamlView::Null, YamlView::Null)
                    },
            ),
        ),
    }
}

impl View for YamlValue {
    type V = YamlView;

    open spec fn view(&self) -> YamlView {
        yaml_view(*self)
    }
}

impl YamlValue {
    /// A copy of the value.
    #[verifier::loop_isolation(false)]
    pub fn duplicate(&self) -> (r: YamlValue)
        ensures
            r@ == self@,
        decreases self,
    {
        match self {
            YamlValue::Null => YamlValue::Null,
            YamlValue::Bool(b) => YamlValue::Bool(*b),
            YamlValue::Int(i) => YamlValue::Int(*i),
            YamlValue::UInt(u) => YamlValue::UInt(*u),
            YamlValue::Float(k, s) => YamlValue::Float(*k, s.clone()),
            YamlValue::Str(s) => YamlValue::Str(s.clone()),
            YamlValue::Sequence(items) => {
                let mut out: Vec<YamlValue> = Vec::new();
                let mut i: usize = 0;
                while i < items.len()
                    invariant
                        i <= items.len(),
                        out@.len() == i,
                        forall|j: int| 0 <= j < i ==> (#[trigger] out@[j])@ == items@[j]@,
                    decreases items.len() - i,
                {
                    out.push(items[i].duplicate());
                    i += 1;
                }
                let r = YamlValue::Sequence(out);
                assert(r@->Sequence_0 =~= self@->Sequence_0);
                r
            },
            YamlValue::Mapping(entries) => {
                let mut out: Vec<(YamlValue, YamlValue)> = Vec::new();
                let mut i: usize = 0;
                while i < entries.len()
                    invariant
                        i <= entries.len(),
                        out@.len() == i,
                        forall|j: int|
                            0 <= j < i ==> (#[trigger] out@[j]).0@ == entries@[j].0@ && out@[j].1@
                                == entries@[j].1@,
                    decreases entries.len() - i,
                {
                    let k = entries[i].0.duplicate();
                    let v = entries[i].1.duplicate();
                    out.push((k, v));
                    i += 1;
                }
                let r = YamlValue::Mapping(out);
                assert(r@->Mapping_0 =~= self@->Mapping_0);
                r
            },
        }
    }

    /// Whether two values are equal: the same variant with equal contents
    /// (floats by their order key and their text).
    #[verifier::loop_isolation(false)]
    pub fn same(&self, other: &YamlValue) -> (r: bool)
        ensures
            r == (self@ == other@),
        decreases self,
    {
        match (self, other) {
            (YamlValue::Null, YamlValue::Null) => true,
            (YamlValue::Bool(a), YamlValue::Bool(b)) => *a == *b,
            (YamlValue::Int(a), YamlValue::Int(b)) => *a == *b,
            (YamlValue::UInt(a), YamlValue::UInt(b)) => *a == *b,
            (YamlValue::Float(a, s), YamlValue::Float(b, t)) => *a == *b && *s == *t,
            (YamlValue::Str(s), YamlValue::Str(t)) => *s == *t,
            (YamlValue::Sequence(a), YamlValue::Sequence(b)) => {
                if a.len() != b.len() {
                    assert(self@->Sequence_0.len() != other@->Sequence_0.len());
                    return false;
                }
                let mut i: usize = 0;
                while i < a.len()
                    invariant
                        i <= a.len(),
                        a.len() == b.len(),
                        forall|j: int| 0 <= j < i ==> (#[trigger] a@[j])@ == b@[j]@,
                    decreases a.len() - i,
                {
                    if !a[i].same(&b[i]) {
                        assert(self@->Sequence_0[i as int] != other@->Sequence_0[i as int]);
                        return false;
                    }
                    i += 1;
                }
                assert(self@->Sequence_0 =~= other@->Sequence_0);
                true
            },
            (YamlValue::Mapping(a), YamlValue::Mapping(b)) => {
                if a.len() != b.len() {
                    assert(self@->Mapping_0.len() != other@->Mapping_0.len());
                    return false;
                }
                let mut i: usize = 0;
                while i < a.len()
                    invariant
                        i <= a.len(),
                        a.len() == b.len(),
                        forall|j: int|
                            0 <= j < i ==> (#[trigger] a@[j]).0@ == b@[j].0@ && a@[j].1@ == b@[j].1@,
                    decreases a.len() - i,
                {
                    if !a[i].0.same(&b[i].0) || !a[i].1.same(&b[i].1) {
                        assert(self@->Mapping_0[i as int] != other@->Mapping_0[i as int]);
                        return false;
                    }
                    i += 1;
                }
                assert(self@->Mapping_0 =~= other@->Mapping_0);
                true
            },
            _ => false,
        }
    }
}

} // verus!

verus! {

/// The view of the entries of a mapping.
pub open spec fn entries_view(entries: Seq<(YamlValue, YamlValue)>) -> Seq<(YamlView, YamlView)> {
    Seq::new(entries.len(), |i: int| (entries[i].0@, entries[i].1@))
}

/// The view of a mapping is the mapping of the views of its entries.
pub proof fn lemma_mapping_view(entries: Vec<(YamlValue, YamlValue)>)
    ensures
        YamlValue::Mapping(entries)@ == YamlView::Mapping(entries_view(entries@)),
{
    assert(YamlValue::Mapping(entries)@->Mapping_0 =~= entries_view(entries@));
}

/// `s.split('/')`: the pieces between the slashes (at least one piece).
pub open spec fn split_path(s: Seq<char>) -> Seq<Seq<char>>
    decreases s.len(),
{
    if s.len() == 0 {
        seq![Seq::<char>::empty()]
    } else {
        let rest = split_path(s.drop_last());
        if s.last() == '/' {
            rest.push(Seq::<char>::empty())
        } else {
            rest.update(rest.len() - 1, rest.last().push(s.last()))
        }
    }
}

proof fn lemma_split_path_nonempty(s: Seq<char>)
    ensures
        split_path(s).len() >= 1,
    decreases s.len(),
{
    if s.len() > 0 {
        lemma_split_path_nonempty(s.drop_last());
    }
}

/// A name without a slash is a path of one piece, itself.
pub proof fn lemma_split_path_plain(s: Seq<char>)
    requires
        !s.contains('/'),
    ensures
        split_path(s) == seq![s],
    decreases s.len(),
{
    if s.len() > 0 {
        assert(!s.drop_last().contains('/')) by {
            if s.drop_last().contains('/') {
                let i = choose|i: int| 0 <= i < s.drop_last().len() && s.drop_last()[i] == '/';
                assert(s[i] == '/');
            }
        }
        lemma_split_path_plain(s.drop_last());
        assert(s[s.len() - 1] != '/');
        assert(s.drop_last().push(s.last()) =~= s);
    } else {
        assert(s =~= Seq::<char>::empty());
    }
}

/// The pieces of a parameter name between its slashes (`key.split("/")`).
pub fn split_path_exec(key: &str) -> (r: Vec<String>)
    ensures
        r.deep_view() == split_path(key@),
        r@.len() >= 1,
{
    let cs = chars_of(key);
    let mut parts: Vec<String> = Vec::new();
    let mut cur: Vec<char> = Vec::new();
    let mut i: usize = 0;
    assert(cs@.take(0) =~= Seq::<char>::empty());
    assert(parts.deep_view().push(cur@) =~= split_path(cs@.take(0)));
    while i < cs.len()
        invariant
            i <= cs.len(),
            parts.deep_view().push(cur@) == split_path(cs@.take(i as int)),
        decreases cs.len() - i,
    {
        let c = cs[i];
        let ghost prefix = cs@.take(i as int);
        assert(cs@.take(i + 1).drop_last() =~= prefix);
        assert(cs@.take(i + 1).last() == c);
        if c == '/' {
            let piece = string_of(&cur);
            parts.push(piece);
            cur = Vec::new();
            assert(parts.deep_view().push(cur@) =~= split_path(prefix).push(Seq::<char>::empty()));
        } else {
            let ghost old_parts = parts.deep_view();
            cur.push(c);
            assert(parts.deep_view().push(cur@) =~= split_path(prefix).update(
                split_path(prefix).len() - 1,
                split_path(prefix).last().push(c),
            ));
        }
        i += 1;
    }
    let piece = string_of(&cur);
    parts.push(piece);
    assert(cs@.take(cs.len() as int) =~= cs@);
    assert(parts.deep_view() =~= split_path(key@));
    parts
}

/// Position of the entry whose key is the string `key` (the first one).
pub open spec fn key_position(entries: Seq<(YamlView, YamlView)>, key: Seq<char>) -> Option<int>
    decreases entries.len(),
{
    if entries.len() == 0 {
        None
    } else if entries[0].0 == YamlView::Str(key) {
        Some(0)
    } else {
        match key_position(entries.drop_first(), key) {
            Some(i) => Some(i + 1),
            None => None,
        }
    }
}

proof fn lemma_key_position(entries: Seq<(YamlView, YamlView)>, key: Seq<char>)
    ensures
        key_position(entries, key) matches Some(i) ==> 0 <= i < entries.len() && entries[i].0
            == YamlView::Str(key) && forall|j: int| 0 <= j < i ==> entries[j].0 != YamlView::Str(key),
        key_position(entries, key) is None ==> forall|j: int|
            0 <= j < entries.len() ==> entries[j].0 != YamlView::Str(key),
    decreases entries.len(),
{
    if entries.len() > 0 {
        lemma_key_position(entries.drop_first(), key);
        if entries[0].0 != YamlView::Str(key) {
            assert forall|j: int| 1 <= j < entries.len() implies entries[j].0 == entries.drop_first()[j
                - 1].0 by {}
        }
    }
}

/// The value at the path `path` through nested mappings.
pub open spec fn path_get(v: YamlView, path: Seq<Seq<char>>) -> Option<YamlView>
    decreases path.len(),
{
    if path.len() == 0 {
        Some(v)
    } else {
        match v {
            YamlView::Mapping(m) => match key_position(m, path[0]) {
                Some(i) => path_get(m[i].1, path.drop_first()),
                None => None,
            },
            _ => None,
        }
    }
}

/// `v` with the value at `path` replaced by `new` (unchanged where the path does not lead anywhere).
pub open spec fn path_set(v: YamlView, path: Seq<Seq<char>>, new: YamlView) -> YamlView
    decreases path.len(),
{
    if path.len() == 0 {
        new
    } else {
        match v {
            YamlView::Mapping(m) => match key_position(m, path[0]) {
                Some(i) => YamlView::Mapping(
                    m.update(i, (m[i].0, path_set(m[i].1, path.drop_first(), new))),
                ),
                None => v,
            },
            _ => v,
        }
    }
}

/// `serde_yaml::Mapping::insert` with a string key: replaces the value of an
/// existing key in place, or appends a new entry.
pub open spec fn map_insert(m: Seq<(YamlView, YamlView)>, key: Seq<char>, value: YamlView) -> Seq<
    (YamlView, YamlView),
> {
    match key_position(m, key) {
        Some(i) => m.update(i, (YamlView::Str(key), value)),
        None => m.push((YamlView::Str(key), value)),
    }
}

/// Reading back a set top-level parameter: after `key` is set to `value`
/// in a mapping, the key reads `value`, and every other key reads what it read.
pub proof fn lemma_map_insert_get(m: Seq<(YamlView, YamlView)>, key: Seq<char>, value: YamlView, other: Seq<char>)
    ensures
        path_get(YamlView::Mapping(map_insert(m, key, value)), seq![key]) == Some(value),
        other != key ==> path_get(YamlView::Mapping(map_insert(m, key, value)), seq![other]) == path_get(
            YamlView::Mapping(m),
            seq![other],
        ),
{
    let m2 = map_insert(m, key, value);
    lemma_key_position(m, key);
    lemma_key_position(m2, key);
    lemma_key_position(m, other);
    lemma_key_position(m2, other);
    assert(seq![key].drop_first() =~= Seq::<Seq<char>>::empty());
    assert(seq![other].drop_first() =~= Seq::<Seq<char>>::empty());
    assert(seq![key][0] == key);
    assert(seq![other][0] == other);
    match key_position(m, key) {
        Some(i) => {
            match key_position(m2, key) {
                Some(p) => {
                    if p < i {
                        assert(m2[p] == m[p]);
                    }
                    if p > i {
                        assert(m2[i].0 == YamlView::Str(key));
                    }
                },
                None => {
                    assert(m2[i].0 == YamlView::Str(key));
                },
            }
            if other != key {
                assert(YamlView::Str(other) != YamlView::Str(key));
                match (key_position(m, other), key_position(m2, other)) {
                    (Some(a), Some(b)) => {
                        if a < b {
                            assert(m2[a] == m[a] || a == i);
                        }
                        if b < a {
                            assert(m2[b] == m[b] || b == i);
                        }
                    },
                    (Some(a), None) => {
                        assert(m2[a] == m[a] || a == i);
                    },
                    (None, Some(b)) => {
                        assert(m2[b] == m[b] || b == i);
                    },
                    (None, None) => {},
                }
            }
        },
        None => {
            match key_position(m2, key) {
                Some(p) => {
                    if p < m.len() {
                        assert(m2[p] == m[p]);
                    }
                },
                None => {
                    assert(m2[m.len() as int].0 == YamlView::Str(key));
                },
            }
            if other != key {
                assert(YamlView::Str(other) != YamlView::Str(key));
                match (key_position(m, other), key_position(m2, other)) {
                    (Some(a), Some(b)) => {
                        if a < b {
                            assert(m2[a] == m[a]);
                        }
                        if b < a {
                            assert(m2[b] == m[b]);
                        }
                    },
                    (Some(a), None) => {
                        assert(m2[a] == m[a]);
                    },
                    (None, Some(b)) => {
                        if b < m.len() {
                            assert(m2[b] == m[b]);
                        }
                    },
                    (None, None) => {},
                }
            }
        },
    }
    let pos = match key_position(m, key) {
        Some(i) => i,
        None => m.len() as int,
    };
    assert(key_position(m2, key) == Some(pos));
    assert(m2[pos].1 == value);
    assert(path_get(m2[pos].1, seq![key].drop_first()) == Some(value));
}

/// Writing at a path leaves the values under every other top-level key as they were.
pub proof fn lemma_path_set_frame(v: YamlView, path: Seq<Seq<char>>, x: YamlView, other: Seq<Seq<char>>)
    requires
        path.len() > 0,
        other.len() > 0,
        path[0] != other[0],
    ensures
        path_get(path_set(v, path, x), other) == path_get(v, other),
{
    if let YamlView::Mapping(m) = v {
        if let Some(i) = key_position(m, path[0]) {
            let m2 = m.update(i, (m[i].0, path_set(m[i].1, path.drop_first(), x)));
            lemma_key_position(m, path[0]);
            lemma_key_position(m, other[0]);
            lemma_key_position(m2, other[0]);
            assert(m2[i].0 == m[i].0);
            assert(YamlView::Str(other[0]) != YamlView::Str(path[0]));
            match (key_position(m, other[0]), key_position(m2, other[0])) {
                (Some(a), Some(b)) => {
                    if a < b {
                        assert(m2[a].0 == m[a].0);
                    }
                    if b < a {
                        assert(m2[b].0 == m[b].0);
                    }
                    assert(a != i);
                    assert(m2[a] == m[a]);
                },
                (Some(a), None) => {
                    assert(m2[a].0 == m[a].0);
                },
                (None, Some(b)) => {
                    assert(m2[b].0 == m[b].0);
                },
                (None, None) => {},
            }
        }
    }
}

/// Reading back a written value: after the value at `path` is replaced by
/// `x`, reading `path` gives `x`.
pub proof fn lemma_path_get_set(v: YamlView, path: Seq<Seq<char>>, x: YamlView)
    requires
        path_get(v, path) is Some,
    ensures
        path_get(path_set(v, path, x), path) == Some(x),
    decreases path.len(),
{
    if path.len() > 0 {
        let m = v->Mapping_0;
        let i = key_position(m, path[0])->Some_0;
        lemma_key_position(m, path[0]);
        let m2 = m.update(i, (m[i].0, path_set(m[i].1, path.drop_first(), x)));
        lemma_key_position(m2, path[0]);
        assert(key_position(m2, path[0]) == Some(i)) by {
            assert(m2[i].0 == YamlView::Str(path[0]));
            assert(forall|j: int| 0 <= j < i ==> m2[j].0 == m[j].0);
        }
        lemma_path_get_set(m[i].1, path.drop_first(), x);
    }
}

/// Position of the entry with string key `key`.
pub fn find_key(entries: &Vec<(YamlValue, YamlValue)>, key: &String) -> (r: Option<usize>)
    ensures
        r matches Some(i) ==> key_position(entries_view(entries@), key@) == Some(i as int) && i
            < entries@.len(),
        r is None ==> key_position(entries_view(entries@), key@) is None,
{
    let ghost ev = entries_view(entries@);
    let mut i: usize = 0;
    while i < entries.len()
        invariant
            i <= entries.len(),
            ev == entries_view(entries@),
            forall|j: int| 0 <= j < i ==> ev[j].0 != YamlView::Str(key@),
        decreases entries.len() - i,
    {
        let is_key = match &entries[i].0 {
            YamlValue::Str(s) => *s == *key,
            _ => false,
        };
        assert(is_key == (ev[i as int].0 == YamlView::Str(key@)));
        if is_key {
            proof {
                lemma_key_position(ev, key@);
                match key_position(ev, key@) {
                    Some(p) => {
                        if p < i {
                        } else if p > i {
                        }
                    },
                    None => {},
                }
            }
            return Some(i);
        }
        i += 1;
    }
    proof {
        lemma_key_position(ev, key@);
        if let Some(p) = key_position(ev, key@) {
            assert(ev[p].0 == YamlView::Str(key@));
        }
    }
    None
}

/// The value at the path `path[start..]` inside `v`.
pub fn get_path<'a>(v: &'a YamlValue, path: &Vec<String>, start: usize) -> (r: Option<&'a YamlValue>)
    requires
        start <= path@.len(),
    ensures
        r matches Some(x) ==> path_get(v@, path.deep_view().skip(start as int)) == Some(x@),
        r is None ==> path_get(v@, path.deep_view().skip(start as int)) is None,
    decreases path@.len() - start,
{
    let ghost p = path.deep_view().skip(start as int);
    if start == path.len() {
        assert(p.len() == 0);
        return Some(v);
    }
    assert(p[0] == path@[start as int]@);
    assert(p.drop_first() =~= path.deep_view().skip(start + 1));
    match v {
        YamlValue::Mapping(entries) => {
            proof {
                lemma_mapping_view(*entries);
            }
            match find_key(entries, &path[start]) {
                Some(i) => get_path(&entries[i].1, path, start + 1),
                None => None,
            }
        },
        _ => None,
    }
}

/// A copy of `v` with the value at the path `path[start..]` replaced by `new`.
pub fn with_path_set(v: &YamlValue, path: &Vec<String>, start: usize, new: &YamlValue) -> (r: YamlValue)
    requires
        start <= path@.len(),
    ensures
        r@ == path_set(v@, path.deep_view().skip(start as int), new@),
    decreases path@.len() - start,
{
    let ghost p = path.deep_view().skip(start as int);
    if start == path.len() {
        assert(p.len() == 0);
        return new.duplicate();
    }
    assert(p[0] == path@[start as int]@);
    assert(p.drop_first() =~= path.deep_view().skip(start + 1));
    match v {
        YamlValue::Mapping(entries) => {
            proof {
                lemma_mapping_view(*entries);
            }
            match find_key(entries, &path[start]) {
                Some(i) => {
                    let inner = with_path_set(&entries[i].1, path, start + 1, new);
                    let mut out: Vec<(YamlValue, YamlValue)> = Vec::new();
                    let mut j: usize = 0;
                    while j < entries.len()
                        invariant
                            j <= entries.len(),
                            i < entries.len(),
                            out@.len() == j,
                            forall|k: int|
                                0 <= k < j ==> (#[trigger] out@[k]).0@ == entries@[k].0@ && (out@[k].1@
                                    == if k == i {
                                    inner@
                                } else {
                                    entries@[k].1@
                                }),
                        decreases entries.len() - j,
                    {
                        let key = entries[j].0.duplicate();
                        let val = if j == i {
                            inner.duplicate()
                        } else {
                            entries[j].1.duplicate()
                        };
                        out.push((key, val));
                        j += 1;
                    }
                    let r = YamlValue::Mapping(out);
                    proof {
                        lemma_mapping_view(out);
                        let m = entries_view(entries@);
                        assert(entries_view(out@) =~= m.update(
                            i as int,
                            (m[i as int].0, path_set(m[i as int].1, p.drop_first(), new@)),
                        ));
                    }
                    r
                },
                None => v.duplicate(),
            }
        },
        _ => v.duplicate(),
    }
}

/// `Mapping::insert` of a string key into the entries of a mapping.
pub fn mapping_insert(entries: &mut Vec<(YamlValue, YamlValue)>, key: &String, value: YamlValue)
    ensures
        entries_view(final(entries)@) == map_insert(entries_view(old(entries)@), key@, value@),
{
    let ghost m = entries_view(entries@);
    match find_key(entries, key) {
        Some(i) => {
            entries.set(i, (YamlValue::Str(key.clone()), value));
            assert(entries_view(entries@) =~= m.update(i as int, (YamlView::Str(key@), value@)));
        },
        None => {
            entries.push((YamlValue::Str(key.clone()), value));
            assert(entries_view(entries@) =~= m.push((YamlView::Str(key@), value@)));
        },
    }
}

} // verus!
