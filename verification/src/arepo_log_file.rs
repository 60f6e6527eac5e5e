//! What the log file of a simulation tells: the number of cores it ran
//! with and how many sweeps it finished.
use vstd::prelude::*;
use crate::capture::{all_captures, captures_view, groups_view, regex_captures};
use crate::pattern::{all_in_range, lemma_single_run, matches_all, matches_with, pattern_text, Piece};
use crate::text::{decimal, digit_char, parse_i64, parse_integer};

verus! {

/// The log file of a simulation.
pub struct ArepoLogFile {
    pub file: String,
}

/// Why the log file does not tell what was asked.
#[derive(Debug, Clone, PartialEq, Eq)]
pub enum LogError {
    /// The pattern does not compile.
    InvalidPattern,
    /// No line of the log matches.
    NoMatch,
    /// The first match lacks the group that was asked for.
    NoGroup,
    /// The number of cores, or of an iteration, is not a number.
    InvalidNumber(String),
    /// The errors of an iteration come before any first iteration.
    NoFirstIteration,
}

/// The mathematical value of a `LogError`.
pub enum LogErrorView {
    InvalidPattern,
    NoMatch,
    NoGroup,
    InvalidNumber(Seq<char>),
    NoFirstIteration,
}

impl View for LogError {
    type V = LogErrorView;

    open spec fn view(&self) -> LogErrorView {
        match self {
            LogError::InvalidPattern => LogErrorView::InvalidPattern,
            LogError::NoMatch => LogErrorView::NoMatch,
            LogError::NoGroup => LogErrorView::NoGroup,
            LogError::InvalidNumber(s) => LogErrorView::InvalidNumber(s@),
            LogError::NoFirstIteration => LogErrorView::NoFirstIteration,
        }
    }
}

/// Group 1 of the first match, where there is one.
pub open spec fn first_capture(caps: Seq<Seq<Option<Seq<char>>>>) -> Result<Seq<char>, LogError> {
    if caps.len() == 0 {
        Err(LogError::NoMatch)
    } else if caps[0].len() > 1 && caps[0][1] is Some {
        Ok(caps[0][1]->Some_0)
    } else {
        Err(LogError::NoGroup)
    }
}

/// The pattern of the line that tells the error of an iteration of a sweep.
pub open spec fn convergence_pattern() -> Seq<char> {
    "Sweep PBC iteration (\\d+),\\s*Mean error: ([0-9]+\\.[0-9]+e-[0-9]+)"@
}

/// The matches are all lines of iterations (each with its number and error).
pub open spec fn iteration_lines(caps: Seq<Seq<Option<Seq<char>>>>) -> bool {
    forall|i: int| 0 <= i < caps.len() ==> (#[trigger] caps[i]).len() > 2 && caps[i][1] is Some && caps[i][2] is Some
}

/// The errors of the first `n` matched lines, one group per sweep: a line of
/// iteration 1 starts a new group, every line adds its error to the last group.
pub open spec fn error_groups(caps: Seq<Seq<Option<Seq<char>>>>, n: nat) -> Result<Seq<Seq<Seq<char>>>, LogErrorView>
    decreases n,
{
    if n == 0 {
        Ok(Seq::empty())
    } else {
        match error_groups(caps, (n - 1) as nat) {
            Err(e) => Err(e),
            Ok(groups) => {
                let line = caps[n - 1];
                let num = line[1]->Some_0;
                match parse_integer(num, true, i64::MIN as int, i64::MAX as int) {
                    None => Err(LogErrorView::InvalidNumber(num)),
                    Some(k) => {
                        let groups = if k == 1 {
                            groups.push(Seq::empty())
                        } else {
                            groups
                        };
                        if groups.len() == 0 {
                            Err(LogErrorView::NoFirstIteration)
                        } else {
                            Ok(groups.update(groups.len() - 1, groups.last().push(line[2]->Some_0)))
                        }
                    },
                }
            },
        }
    }
}

/// The pattern of the line that tells the number of cores.
pub open spec fn num_cores_pattern() -> Seq<char> {
    "Running with ([0-9]+) MPI tasks"@
}

/// The pattern of the line that tells that a sweep finished.
pub open spec fn sweep_pattern() -> Seq<char> {
    "Finished sweep in ([0-9.]+)s"@
}

impl ArepoLogFile {
    /// The log file at `file`.
    pub fn new(file: &str) -> (r: ArepoLogFile)
        ensures
            r.file@ == file@,
    {
        ArepoLogFile { file: String::from_str(file) }
    }

    /// Group 1 of the first match of `pattern` in the log's `contents`.
    pub fn get_first_capture_string(&self, pattern: &str, contents: &str) -> (r: Result<String, LogError>)
        ensures
            match regex_captures(pattern@, contents@) {
                None => r == Err::<String, LogError>(LogError::InvalidPattern),
                Some(caps) => match first_capture(caps) {
                    Ok(s) => r matches Ok(t) && t@ == s,
                    Err(e) => r == Err::<String, LogError>(e),
                },
            },
    {
        let caps = match all_captures(pattern, contents) {
            Some(c) => c,
            None => {
                return Err(LogError::InvalidPattern);
            },
        };
        let ghost cv = captures_view(caps@);
        if caps.len() == 0 {
            return Err(LogError::NoMatch);
        }
        assert(cv[0] == groups_view(caps@[0]@));
        if caps[0].len() <= 1 {
            return Err(LogError::NoGroup);
        }
        match &caps[0][1] {
            Some(s) => Ok(s.clone()),
            None => Err(LogError::NoGroup),
        }
    }

    /// The number of cores that the log's `contents` tell the simulation ran with.
    pub fn get_num_cores(&self, contents: &str) -> (r: Result<i64, LogError>)
        ensures
            match regex_captures(num_cores_pattern(), contents@) {
                None => r == Err::<i64, LogError>(LogError::InvalidPattern),
                Some(caps) => match first_capture(caps) {
                    Ok(s) => match parse_integer(s, true, i64::MIN as int, i64::MAX as int) {
                        Some(n) => r == Ok::<i64, LogError>(n as i64),
                        None => r matches Err(LogError::InvalidNumber(t)) && t@ == s,
                    },
                    Err(e) => r == Err::<i64, LogError>(e),
                },
            },
    {
        let s = self.get_first_capture_string("Running with ([0-9]+) MPI tasks", contents)?;
        match parse_i64(s.as_str()) {
            Some(n) => Ok(n),
            None => Err(LogError::InvalidNumber(s)),
        }
    }

    /// The number of sweeps that the log's `contents` tell were finished.
    pub fn get_num_sweep_runs(&self, contents: &str) -> (r: Result<usize, LogError>)
        ensures
            match regex_captures(sweep_pattern(), contents@) {
                None => r == Err::<usize, LogError>(LogError::InvalidPattern),
                Some(caps) => r == Ok::<usize, LogError>(caps.len() as usize),
            },
    {
        match all_captures("Finished sweep in ([0-9.]+)s", contents) {
            Some(c) => Ok(c.len()),
            None => Err(LogError::InvalidPattern),
        }
    }
}

/// The texts of groups of texts.
pub open spec fn text_groups(v: Seq<Vec<String>>) -> Seq<Seq<Seq<char>>> {
    Seq::new(v.len(), |i: int| v[i].deep_view())
}

impl ArepoLogFile {
    /// The errors of the iterations of each sweep, as the texts of the numbers.
    pub fn get_convergence_errors(&self, contents: &str) -> (r: Result<Vec<Vec<String>>, LogError>)
        ensures
            match regex_captures(convergence_pattern(), contents@) {
                None => r == Err::<Vec<Vec<String>>, LogError>(LogError::InvalidPattern),
                Some(caps) => if iteration_lines(caps) {
                    match error_groups(caps, caps.len()) {
                        Ok(g) => r matches Ok(v) && text_groups(v@) == g,
                        Err(e) => r matches Err(x) && x@ == e,
                    }
                } else {
                    r == Err::<Vec<Vec<String>>, LogError>(LogError::NoGroup)
                },
            },
    {
        let caps = match all_captures("Sweep PBC iteration (\\d+),\\s*Mean error: ([0-9]+\\.[0-9]+e-[0-9]+)", contents) {
            Some(c) => c,
            None => {
                return Err(LogError::InvalidPattern);
            },
        };
        let ghost cv = captures_view(caps@);
        let mut k: usize = 0;
        while k < caps.len()
            invariant
                k <= caps@.len(),
                cv == captures_view(caps@),
                regex_captures(convergence_pattern(), contents@) == Some(cv),
                forall|i: int| 0 <= i < k ==> (#[trigger] cv[i]).len() > 2 && cv[i][1] is Some && cv[i][2] is Some,
            decreases caps@.len() - k,
        {
            assert(cv[k as int] == groups_view(caps@[k as int]@));
            if caps[k].len() <= 2 || caps[k][1].is_none() || caps[k][2].is_none() {
                return Err(LogError::NoGroup);
            }
            k += 1;
        }
        let mut result: Vec<Vec<String>> = Vec::new();
        let mut i: usize = 0;
        assert(text_groups(result@) =~= Seq::<Seq<Seq<char>>>::empty());
        while i < caps.len()
            invariant
                i <= caps@.len(),
                cv == captures_view(caps@),
                regex_captures(convergence_pattern(), contents@) == Some(cv),
                iteration_lines(cv),
                error_groups(cv, i as nat) == Ok::<Seq<Seq<Seq<char>>>, LogErrorView>(text_groups(result@)),
            decreases caps@.len() - i,
        {
            assert(cv[i as int] == groups_view(caps@[i as int]@));
            let num = match &caps[i][1] {
                Some(n) => n,
                None => {
                    return Err(LogError::NoGroup);
                },
            };
            let error = match &caps[i][2] {
                Some(e) => e.clone(),
                None => {
                    return Err(LogError::NoGroup);
                },
            };
            let iteration = match parse_i64(num.as_str()) {
                Some(n) => n,
                None => {
                    proof {
                        lemma_error_groups_stay(cv, i as nat + 1);
                    }
                    return Err(LogError::InvalidNumber(num.clone()));
                },
            };
            let ghost before = text_groups(result@);
            if iteration == 1 {
                let empty: Vec<String> = Vec::new();
                assert(empty.deep_view() =~= Seq::<Seq<char>>::empty());
                result.push(empty);
                assert(text_groups(result@) =~= before.push(Seq::<Seq<char>>::empty()));
            }
            let ghost grouped = text_groups(result@);
            if result.len() == 0 {
                proof {
                    lemma_error_groups_stay(cv, i as nat + 1);
                }
                return Err(LogError::NoFirstIteration);
            }
            let last = result.len() - 1;
            let ghost r0 = result@;
            let mut group = result.remove(last);
            assert(result@ =~= r0.drop_last());
            let ghost g0 = group.deep_view();
            assert(g0 == grouped.last());
            let ghost e = error@;
            group.push(error);
            assert(group.deep_view() =~= g0.push(e));
            result.push(group);
            assert(text_groups(result@) =~= grouped.update(grouped.len() - 1, grouped.last().push(cv[i as int][2]->Some_0)));
            i += 1;
        }
        Ok(result)
    }
}

/// Once the errors cannot be grouped, more lines do not change the error.
proof fn lemma_error_groups_stay(caps: Seq<Seq<Option<Seq<char>>>>, n: nat)
    requires
        n <= caps.len(),
        error_groups(caps, n) is Err,
    ensures
        error_groups(caps, caps.len()) == error_groups(caps, n),
    decreases caps.len() - n,
{
    if n < caps.len() {
        lemma_error_groups_stay(caps, n + 1);
    }
}

/// `c` is one of the digits `0` to `9`.
pub open spec fn is_digit(c: char) -> bool {
    ('0' as int) <= (c as int) && (c as int) <= ('9' as int)
}

/// `s` is one or more decimal digits.
pub open spec fn is_digits(s: Seq<char>) -> bool {
    s.len() > 0 && forall|i: int| 0 <= i < s.len() ==> is_digit(#[trigger] s[i])
}

/// A mean error as the log writes it: digits, a point, digits, `e-` and the
/// digits of the exponent.
pub open spec fn is_error_text(s: Seq<char>) -> bool {
    exists|a: Seq<char>, b: Seq<char>, c: Seq<char>|
        #![trigger is_digits(a), is_digits(b), is_digits(c)]
        is_digits(a) && is_digits(b) && is_digits(c) && s == a + seq!['.'] + b + seq!['e', '-'] + c
}

/// The pieces of the number of cores in its line: `[0-9]+`.
pub open spec fn number_pieces() -> Seq<Piece> {
    seq![Piece::RangePlus('0', '9')]
}

/// The pieces of the mean error in its line: `[0-9]+\.[0-9]+e-[0-9]+`.
pub open spec fn error_pieces() -> Seq<Piece> {
    seq![
        Piece::RangePlus('0', '9'),
        Piece::Char('.'),
        Piece::RangePlus('0', '9'),
        Piece::Char('e'),
        Piece::Char('-'),
        Piece::RangePlus('0', '9'),
    ]
}

/// Every number written in decimal is one or more digits.
pub proof fn lemma_decimal_is_digits(n: nat)
    ensures
        is_digits(decimal(n)),
    decreases n,
{
    if n >= 10 {
        lemma_decimal_is_digits(n / 10);
        let d = decimal(n);
        assert(d == decimal(n / 10).push(digit_char(n % 10)));
        assert forall|i: int| 0 <= i < d.len() implies is_digit(#[trigger] d[i]) by {
            if i < d.len() - 1 {
                assert(d[i] == decimal(n / 10)[i]);
            }
        }
    }
}

/// The line of the number of cores is `Running with <number> MPI tasks`,
/// where the number (the group) is one or more decimal digits: exactly the
/// texts of one or more digits match it, among them every number written in
/// decimal.
pub proof fn lemma_num_cores_pattern(s: Seq<char>, n: nat)
    ensures
        num_cores_pattern() == "Running with ("@ + pattern_text(number_pieces()) + ") MPI tasks"@,
        matches_all(number_pieces(), s) <==> is_digits(s),
        matches_all(number_pieces(), decimal(n)),
{
    reveal_strlit("Running with ([0-9]+) MPI tasks");
    reveal_strlit("Running with (");
    reveal_strlit(") MPI tasks");
    reveal_with_fuel(pattern_text, 2);
    let ps = number_pieces();
    assert(ps.drop_first() =~= Seq::<Piece>::empty());
    assert(num_cores_pattern() =~= "Running with ("@ + pattern_text(number_pieces()) + ") MPI tasks"@);
    lemma_single_run('0', '9', s);
    lemma_single_run('0', '9', decimal(n));
    lemma_decimal_is_digits(n);
    assert(is_digits(s) <==> s.len() > 0 && all_in_range(s, '0', '9'));
    let d = decimal(n);
    assert(is_digits(d) ==> all_in_range(d, '0', '9'));
}

/// The line of an iteration's error is `Sweep PBC iteration <n>, Mean error:
/// <error>`, where the error (the second group) matches exactly the texts of
/// digits, a point, digits, `e-` and the digits of the exponent, all of
/// them.
#[verifier::spinoff_prover]
#[verifier::rlimit(40)]
pub proof fn lemma_convergence_pattern(s: Seq<char>)
    ensures
        convergence_pattern() == "Sweep PBC iteration (\\d+),\\s*Mean error: ("@ + pattern_text(error_pieces()) + ")"@,
        matches_all(error_pieces(), s) <==> is_error_text(s),
{
    reveal_strlit("Sweep PBC iteration (\\d+),\\s*Mean error: ([0-9]+\\.[0-9]+e-[0-9]+)");
    reveal_strlit("Sweep PBC iteration (\\d+),\\s*Mean error: (");
    reveal_strlit(")");
    reveal_with_fuel(pattern_text, 7);
    let p0 = error_pieces();
    let p1 = p0.drop_first();
    let p2 = p1.drop_first();
    let p3 = p2.drop_first();
    let p4 = p3.drop_first();
    let p5 = p4.drop_first();
    let p6 = p5.drop_first();
    assert(p1 =~= seq![Piece::Char('.'), Piece::RangePlus('0', '9'), Piece::Char('e'), Piece::Char('-'), Piece::RangePlus('0', '9')]);
    assert(p2 =~= seq![Piece::RangePlus('0', '9'), Piece::Char('e'), Piece::Char('-'), Piece::RangePlus('0', '9')]);
    assert(p3 =~= seq![Piece::Char('e'), Piece::Char('-'), Piece::RangePlus('0', '9')]);
    assert(p4 =~= seq![Piece::Char('-'), Piece::RangePlus('0', '9')]);
    assert(p5 =~= seq![Piece::RangePlus('0', '9')]);
    assert(p6 =~= Seq::<Piece>::empty());
    assert(convergence_pattern() =~= "Sweep PBC iteration (\\d+),\\s*Mean error: ("@ + pattern_text(error_pieces()) + ")"@);
    if is_error_text(s) {
        let (a, b, c) = choose|a: Seq<char>, b: Seq<char>, c: Seq<char>|
            #![trigger is_digits(a), is_digits(b), is_digits(c)]
            is_digits(a) && is_digits(b) && is_digits(c) && s == a + seq!['.'] + b + seq!['e', '-'] + c;
        let runs = seq![a.len() as int, b.len() as int, c.len() as int];
        let t1 = s.skip(a.len() as int);
        let t2 = t1.drop_first();
        let t3 = t2.skip(b.len() as int);
        let t4 = t3.drop_first();
        let t5 = t4.drop_first();
        let t6 = t5.skip(c.len() as int);
        assert(s.take(a.len() as int) =~= a);
        assert(t1 =~= seq!['.'] + b + seq!['e', '-'] + c);
        assert(t2 =~= b + seq!['e', '-'] + c);
        assert(t2.take(b.len() as int) =~= b);
        assert(t3 =~= seq!['e', '-'] + c);
        assert(t4 =~= seq!['-'] + c);
        assert(t5 =~= c);
        assert(t5.take(c.len() as int) =~= c);
        assert(t6 =~= Seq::<char>::empty());
        assert(runs.drop_first() =~= seq![b.len() as int, c.len() as int]);
        assert(runs.drop_first().drop_first() =~= seq![c.len() as int]);
        assert(runs.drop_first().drop_first().drop_first() =~= Seq::<int>::empty());
        assert(matches_with(p6, t6, runs.drop_first().drop_first().drop_first()));
        assert(matches_with(p5, t5, runs.drop_first().drop_first()));
        assert(matches_with(p4, t4, runs.drop_first().drop_first()));
        assert(matches_with(p3, t3, runs.drop_first().drop_first()));
        assert(matches_with(p2, t2, runs.drop_first()));
        assert(matches_with(p1, t1, runs.drop_first()));
        assert(matches_with(p0, s, runs));
    }
    if matches_all(p0, s) {
        let runs = choose|runs: Seq<int>| #[trigger] matches_with(p0, s, runs);
        let r1 = runs.drop_first();
        let r3 = r1.drop_first();
        let t1 = s.skip(runs[0]);
        let t2 = t1.drop_first();
        let t3 = t2.skip(r1[0]);
        let t4 = t3.drop_first();
        let t5 = t4.drop_first();
        assert(matches_with(p1, t1, r1));
        assert(matches_with(p2, t2, r1));
        assert(matches_with(p3, t3, r3));
        assert(matches_with(p4, t4, r3));
        assert(matches_with(p5, t5, r3));
        assert(matches_with(p6, t5.skip(r3[0]), r3.drop_first()));
        let a = s.take(runs[0]);
        let b = t2.take(r1[0]);
        let c = t5.take(r3[0]);
        assert(c =~= t5);
        assert(t4 =~= seq!['-'] + c);
        assert(t3 =~= seq!['e', '-'] + c);
        assert(t2 =~= b + seq!['e', '-'] + c);
        assert(t1 =~= seq!['.'] + b + seq!['e', '-'] + c);
        assert(s =~= a + seq!['.'] + b + seq!['e', '-'] + c);
        assert(is_digits(a) && is_digits(b) && is_digits(c));
    }
}

/// The groups one after the other.
pub open spec fn joined(g: Seq<Seq<Seq<char>>>) -> Seq<Seq<char>>
    decreases g.len(),
{
    if g.len() == 0 {
        Seq::empty()
    } else {
        joined(g.drop_last()) + g.last()
    }
}

/// How many of the first `n` matched lines are of iteration 1.
pub open spec fn first_iterations(caps: Seq<Seq<Option<Seq<char>>>>, n: nat) -> nat
    decreases n,
{
    if n == 0 {
        0
    } else {
        first_iterations(caps, (n - 1) as nat) + if parse_integer(caps[n - 1][1]->Some_0, true, i64::MIN as int, i64::MAX as int)
            == Some(1int) {
            1nat
        } else {
            0nat
        }
    }
}

/// Where the errors of the first `n` lines can be grouped: read one group
/// after the other, the groups hold the errors of the lines in order, none
/// is left out and none added; no group is empty; and there is one group for
/// each line of iteration 1.
pub proof fn lemma_error_groups_hold_all_errors(caps: Seq<Seq<Option<Seq<char>>>>, n: nat)
    requires
        n <= caps.len(),
    ensures
        error_groups(caps, n) matches Ok(g) ==> {
            &&& joined(g) == Seq::new(n, |i: int| caps[i][2]->Some_0)
            &&& forall|j: int| 0 <= j < g.len() ==> (#[trigger] g[j]).len() > 0
            &&& g.len() == first_iterations(caps, n)
        },
    decreases n,
{
    if n > 0 {
        lemma_error_groups_hold_all_errors(caps, (n - 1) as nat);
        if let Ok(g) = error_groups(caps, n) {
            let prev = error_groups(caps, (n - 1) as nat)->Ok_0;
            let line = caps[n - 1];
            let k = parse_integer(line[1]->Some_0, true, i64::MIN as int, i64::MAX as int)->Some_0;
            let grouped = if k == 1 {
                prev.push(Seq::empty())
            } else {
                prev
            };
            let e = line[2]->Some_0;
            assert(g == grouped.update(grouped.len() - 1, grouped.last().push(e)));
            let before = Seq::new((n - 1) as nat, |i: int| caps[i][2]->Some_0);
            assert(joined(grouped) == before) by {
                if k == 1 {
                    assert(grouped.drop_last() =~= prev);
                    assert(joined(prev) + Seq::<Seq<char>>::empty() =~= joined(prev));
                }
            }
            assert(g.drop_last() =~= grouped.drop_last());
            assert(g.len() == grouped.len() && g.len() > 0);
            assert(g.last() == grouped.last().push(e));
            assert(joined(g) == joined(g.drop_last()) + g.last());
            assert(joined(grouped) == joined(grouped.drop_last()) + grouped.last());
            assert(joined(g) =~= before.push(e));
            assert(before.push(e) =~= Seq::new(n, |i: int| caps[i][2]->Some_0));
        }
    }
}

} // verus!
