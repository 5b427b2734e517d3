//! Per-path line-change statistics, read from a numeric diff-stats report.
use vstd::prelude::*;
use vstd::string::*;
use crate::text::{words, lines, split_words, split_lines};

verus! {

/// The count that stands for "unknown" (a binary or unmeasurable change).
pub const UNKNOWN_COUNT: i32 = -1;

/// Why a diff-stats report could not be read.
#[derive(Debug, Clone, Copy, PartialEq, Eq, Structural)]
pub enum NumstatError {
    /// A non-empty line has fewer than three words.
    MalformedLine,
    /// A count is neither `-` nor a decimal number that fits in an `i32`.
    BadCount,
}

/// One changed path of a commit: lines added, lines removed (each
/// `UNKNOWN_COUNT` when unknown) and the path-state token.
#[derive(Debug, Clone)]
pub struct NumstatEntry {
    pub add: i32,
    pub sub: i32,
    pub path_state: String,
}

impl View for NumstatEntry {
    type V = (int, int, Seq<char>);

    open spec fn view(&self) -> (int, int, Seq<char>) {
        (self.add as int, self.sub as int, self.path_state@)
    }
}

pub open spec fn is_digit(c: char) -> bool {
    '0' <= c && c <= '9'
}

pub open spec fn all_digits(s: Seq<char>) -> bool {
    forall|i: int| 0 <= i < s.len() ==> is_digit(#[trigger] s[i])
}

/// The value of a sequence of decimal digits.
pub open spec fn decimal(s: Seq<char>) -> nat
    decreases s.len(),
{
    if s.len() == 0 {
        0
    } else {
        decimal(s.drop_last()) * 10 + ((s.last() as u32) - ('0' as u32)) as nat
    }
}

/// The count a token stands for: `-` is unknown, a decimal number that fits
/// in an `i32` is itself, anything else is no count.
pub open spec fn count_of(t: Seq<char>) -> Option<int> {
    if t == seq!['-'] {
        Some(UNKNOWN_COUNT as int)
    } else if t.len() > 0 && all_digits(t) && decimal(t) <= i32::MAX {
        Some(decimal(t) as int)
    } else {
        None
    }
}

/// What one report line yields: nothing for a blank line, else the first
/// three words as added count, removed count and path state.
pub open spec fn line_entry(l: Seq<char>) -> Result<Option<(int, int, Seq<char>)>, NumstatError> {
    let w = words(l);
    if w.len() == 0 {
        Ok(None)
    } else if w.len() < 3 {
        Err(NumstatError::MalformedLine)
    } else if count_of(w[0]) is None || count_of(w[1]) is None {
        Err(NumstatError::BadCount)
    } else {
        Ok(Some((count_of(w[0])->0, count_of(w[1])->0, w[2])))
    }
}

/// The entries of the lines `ls`, in order, or the error of the first line
/// that cannot be read.
pub open spec fn entries_of(ls: Seq<Seq<char>>) -> Result<Seq<(int, int, Seq<char>)>, NumstatError>
    decreases ls.len(),
{
    if ls.len() == 0 {
        Ok(Seq::empty())
    } else {
        match entries_of(ls.drop_last()) {
            Err(e) => Err(e),
            Ok(v) => match line_entry(ls.last()) {
                Err(e) => Err(e),
                Ok(None) => Ok(v),
                Ok(Some(x)) => Ok(v.push(x)),
            },
        }
    }
}

/// The entries of a whole report.
pub open spec fn report_entries(s: Seq<char>) -> Result<Seq<(int, int, Seq<char>)>, NumstatError> {
    entries_of(lines(s))
}

proof fn lemma_decimal_grows(s: Seq<char>, i: int, j: int)
    requires
        0 <= i <= j <= s.len(),
        all_digits(s),
    ensures
        decimal(s.take(i)) <= decimal(s.take(j)),
    decreases j - i,
{
    if i < j {
        lemma_decimal_grows(s, i, j - 1);
        assert(s.take(j).drop_last() == s.take(j - 1));
        assert(is_digit(s[j - 1]));
    }
}

proof fn lemma_error_persists(ls: Seq<Seq<char>>, k: int, e: NumstatError)
    requires
        0 <= k <= ls.len(),
        entries_of(ls.take(k)) == Err::<Seq<(int, int, Seq<char>)>, NumstatError>(e),
    ensures
        entries_of(ls) == Err::<Seq<(int, int, Seq<char>)>, NumstatError>(e),
    decreases ls.len() - k,
{
    if k == ls.len() {
        assert(ls.take(k) =~= ls);
    } else {
        assert(ls.take(k + 1).drop_last() =~= ls.take(k));
        lemma_error_persists(ls, k + 1, e);
    }
}

/// Reads one count token.
pub fn parse_count(t: &str) -> (r: Result<i32, NumstatError>)
    ensures
        r matches Ok(v) ==> count_of(t@) == Some(v as int),
        r is Err <==> count_of(t@) is None,
        r matches Err(e) ==> e == NumstatError::BadCount,
{
    let n = t.unicode_len();
    if n == 0 {
        return Err(NumstatError::BadCount);
    }
    let c0 = t.get_char(0);
    if n == 1 && c0 == '-' {
        assert(t@ =~= seq!['-']);
        return Ok(UNKNOWN_COUNT);
    }
    assert(t@ != seq!['-']) by {
        if t@ == seq!['-'] {
            assert(t@[0] == '-');
        }
    }
    let mut v: u32 = 0;
    let mut i: usize = 0;
    while i < n
        invariant
            n == t@.len(),
            n > 0,
            t@ != seq!['-'],
            i <= n,
            all_digits(t@.take(i as int)),
            v as nat == decimal(t@.take(i as int)),
            v <= i32::MAX,
        decreases n - i,
    {
        let c = t.get_char(i);
        assert(t@.take(i as int + 1).drop_last() == t@.take(i as int));
        if !('0' <= c && c <= '9') {
            assert(!all_digits(t@)) by {
                assert(!is_digit(t@[i as int]));
            }
            return Err(NumstatError::BadCount);
        }
        let d = (c as u32) - ('0' as u32);
        if v > (0x7fff_ffffu32 - d) / 10 {
            assert(decimal(t@.take(i as int + 1)) > i32::MAX) by (nonlinear_arith)
                requires
                    decimal(t@.take(i as int + 1)) == v * 10 + d,
                    v > (0x7fff_ffff - d) / 10,
                    d <= 9,
            {
            }
            proof {
                if all_digits(t@) {
                    lemma_decimal_grows(t@, i as int + 1, n as int);
                    assert(t@.take(n as int) =~= t@);
                }
            }
            return Err(NumstatError::BadCount);
        }
        v = v * 10 + d;
        i = i + 1;
        assert(all_digits(t@.take(i as int))) by {
            assert forall|k: int| 0 <= k < i implies is_digit(#[trigger] t@.take(i as int)[k]) by {
                if k < i - 1 {
                    assert(t@.take(i as int)[k] == t@.take(i - 1)[k]);
                }
            }
        }
    }
    assert(t@.take(n as int) =~= t@);
    Ok(v as i32)
}

/// Reads one line of a diff-stats report.
pub fn parse_numstat_line(line: &str) -> (r: Result<Option<NumstatEntry>, NumstatError>)
    ensures
        r matches Ok(None) ==> line_entry(line@) == Ok::<Option<(int, int, Seq<char>)>, NumstatError>(None),
        r matches Ok(Some(e)) ==> line_entry(line@) == Ok::<Option<(int, int, Seq<char>)>, NumstatError>(Some(e@)),
        r matches Err(x) ==> line_entry(line@) == Err::<Option<(int, int, Seq<char>)>, NumstatError>(x),
{
    let w = split_words(line);
    let ghost ws = w@.map_values(|s: String| s@);
    assert(ws.len() == w.len());
    if w.len() == 0 {
        return Ok(None);
    }
    if w.len() < 3 {
        return Err(NumstatError::MalformedLine);
    }
    assert(ws[0] == w[0]@ && ws[1] == w[1]@ && ws[2] == w[2]@);
    let add = match parse_count(w[0].as_str()) {
        Ok(a) => a,
        Err(e) => return Err(e),
    };
    let sub = match parse_count(w[1].as_str()) {
        Ok(s) => s,
        Err(e) => return Err(e),
    };
    Ok(Some(NumstatEntry { add, sub, path_state: w[2].clone() }))
}

/// Reads a whole diff-stats report: one entry per non-blank line, in order.
pub fn parse_numstat(report: &str) -> (r: Result<Vec<NumstatEntry>, NumstatError>)
    ensures
        r matches Ok(v) ==> report_entries(report@) == Ok::<Seq<(int, int, Seq<char>)>, NumstatError>(
            v@.map_values(|e: NumstatEntry| e@),
        ),
        r matches Err(x) ==> report_entries(report@) == Err::<Seq<(int, int, Seq<char>)>, NumstatError>(x),
{
    let ls = split_lines(report);
    let ghost lv = ls@.map_values(|l: String| l@);
    let mut out: Vec<NumstatEntry> = Vec::new();
    let mut i: usize = 0;
    assert(lv.take(0) =~= Seq::<Seq<char>>::empty());
    assert(out@.map_values(|e: NumstatEntry| e@) =~= Seq::<(int, int, Seq<char>)>::empty());
    while i < ls.len()
        invariant
            lv == ls@.map_values(|l: String| l@),
            lv == lines(report@),
            i <= ls.len(),
            entries_of(lv.take(i as int)) == Ok::<Seq<(int, int, Seq<char>)>, NumstatError>(
                out@.map_values(|e: NumstatEntry| e@),
            ),
        decreases ls.len() - i,
    {
        assert(lv.take(i as int + 1).drop_last() == lv.take(i as int));
        assert(lv.take(i as int + 1).last() == ls[i as int]@);
        match parse_numstat_line(ls[i].as_str()) {
            Err(e) => {
                proof {
                    lemma_error_persists(lv, i as int + 1, e);
                }
                return Err(e);
            },
            Ok(None) => {},
            Ok(Some(e)) => {
                let ghost before = out@;
                out.push(e);
                assert(out@.map_values(|e: NumstatEntry| e@) =~= before.map_values(
                    |e: NumstatEntry| e@,
                ).push(e@));
            },
        }
        i = i + 1;
    }
    assert(lv.take(ls.len() as int) =~= lv);
    Ok(out)
}

} // verus!
