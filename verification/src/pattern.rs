//! The pieces that the patterns of the log file are made of: single
//! characters and runs of one or more characters of a range, with the text
//! of the pattern in the syntax of regular expressions and the texts that a
//! sequence of pieces matches as a whole.
use vstd::prelude::*;

verus! {

/// One piece of a pattern.
pub enum Piece {
    /// The character itself.
    Char(char),
    /// One or more characters from `lo` to `hi` (`[lo-hi]+`).
    RangePlus(char, char),
}

/// `c` lies between `lo` and `hi`.
pub open spec fn in_range(c: char, lo: char, hi: char) -> bool {
    (lo as int) <= (c as int) <= (hi as int)
}

/// Every character of `s` lies between `lo` and `hi`.
pub open spec fn all_in_range(s: Seq<char>, lo: char, hi: char) -> bool {
    forall|i: int| 0 <= i < s.len() ==> in_range(#[trigger] s[i], lo, hi)
}

/// The characters that a regular expression writes with a backslash.
pub open spec fn needs_escape(c: char) -> bool {
    c == '.' || c == '\\' || c == '(' || c == ')' || c == '[' || c == ']' || c == '{' || c == '}' || c == '+'
        || c == '*' || c == '?' || c == '|' || c == '^' || c == '$'
}

/// How a piece is written in a regular expression.
pub open spec fn piece_text(p: Piece) -> Seq<char> {
    match p {
        Piece::Char(c) => if needs_escape(c) {
            seq!['\\', c]
        } else {
            seq![c]
        },
        Piece::RangePlus(lo, hi) => seq!['[', lo, '-', hi, ']', '+'],
    }
}

/// How a sequence of pieces is written in a regular expression.
pub open spec fn pattern_text(ps: Seq<Piece>) -> Seq<char>
    decreases ps.len(),
{
    if ps.len() == 0 {
        Seq::empty()
    } else {
        piece_text(ps[0]) + pattern_text(ps.drop_first())
    }
}

/// The whole of `s` is matched by the pieces `ps`, one after the other, the
/// runs taking `runs[0]`, `runs[1]`, ... characters.
pub open spec fn matches_with(ps: Seq<Piece>, s: Seq<char>, runs: Seq<int>) -> bool
    decreases ps.len(),
{
    if ps.len() == 0 {
        s.len() == 0 && runs.len() == 0
    } else {
        match ps[0] {
            Piece::Char(c) => s.len() > 0 && s[0] == c && matches_with(ps.drop_first(), s.drop_first(), runs),
            Piece::RangePlus(lo, hi) => runs.len() > 0 && 1 <= runs[0] <= s.len() && all_in_range(
                s.take(runs[0]),
                lo,
                hi,
            ) && matches_with(ps.drop_first(), s.skip(runs[0]), runs.drop_first()),
        }
    }
}

/// The whole of `s` is matched by the pieces `ps`, one after the other.
pub open spec fn matches_all(ps: Seq<Piece>, s: Seq<char>) -> bool {
    exists|runs: Seq<int>| #[trigger] matches_with(ps, s, runs)
}

/// A single run of a range matches exactly the non-empty texts of that range.
pub proof fn lemma_single_run(lo: char, hi: char, s: Seq<char>)
    ensures
        matches_all(seq![Piece::RangePlus(lo, hi)], s) <==> s.len() > 0 && all_in_range(s, lo, hi),
{
    reveal_with_fuel(matches_with, 2);
    let ps = seq![Piece::RangePlus(lo, hi)];
    assert(ps.drop_first() =~= Seq::<Piece>::empty());
    assert(ps[0] == Piece::RangePlus(lo, hi));
    if s.len() > 0 && all_in_range(s, lo, hi) {
        let runs = seq![s.len() as int];
        assert(s.take(s.len() as int) =~= s);
        assert(s.skip(s.len() as int) =~= Seq::<char>::empty());
        assert(runs.drop_first() =~= Seq::<int>::empty());
        assert(matches_with(ps, s, runs));
    }
    if matches_all(ps, s) {
        let runs = choose|runs: Seq<int>| #[trigger] matches_with(ps, s, runs);
        let k = runs[0];
        assert(s.skip(k).len() == 0);
        assert(s.take(k) =~= s);
    }
}

} // verus!
