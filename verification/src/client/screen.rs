//! What the screen shows: which log lines are visible and how each line is
//! coloured.  Drawing them is the terminal library's work.
use vstd::prelude::*;
use vstd::string::StrSliceExecFns;

verus! {

/// The visible part of a log of `total` lines in a panel `height` lines
/// high, scrolled to `scroll`: a start and an end position.  The scroll
/// position is the line shown at the bottom of the panel (the last line when
/// the log is scrolled to its end), held to the log; the panel is filled from
/// the top of the log when that line is among the first `height`.
pub open spec fn window(total: int, height: int, scroll: int) -> (int, int) {
    let last = if scroll + 1 < total { scroll + 1 } else { total };
    let end = if last < height {
        if height < total { height } else { total }
    } else {
        last
    };
    let start = if end > height { end - height } else { 0 };
    (start, end)
}

/// Scrolled to its last line, the panel shows the newest `height` lines of
/// the log (all of it when it is shorter).
pub proof fn law_bottom_shows_newest_lines(total: int, height: int)
    requires
        total >= 1,
        height >= 1,
    ensures
        window(total, height, total - 1) == (if total > height { total - height } else { 0 }, total),
{
}

/// The positions of the first and past the last visible log line.
pub fn log_window(total: usize, height: usize, scroll: usize) -> (r: (usize, usize))
    ensures
        r.0 == window(total as int, height as int, scroll as int).0,
        r.1 == window(total as int, height as int, scroll as int).1,
        r.0 <= r.1 <= total,
{
    let last = if scroll < total && scroll + 1 < total {
        scroll + 1
    } else {
        total
    };
    let end = if last < height {
        if height < total {
            height
        } else {
            total
        }
    } else {
        last
    };
    let start = if end > height {
        end - height
    } else {
        0
    };
    (start, end)
}

/// The colour of a log line.
#[derive(Debug, Clone, Copy, PartialEq, Eq, Structural)]
pub enum LineStyle {
    /// A success: the line holds `OK:`.
    Success,
    /// An error: the line holds `ERR:`.
    Error,
    /// A heading or rule: the line holds `===` or `---`.
    Heading,
    Plain,
}

/// `pat` occurs in `s`.
pub open spec fn occurs(s: Seq<char>, pat: Seq<char>) -> bool {
    exists|i: int| 0 <= i <= s.len() - pat.len() && #[trigger] s.subrange(i, i + pat.len()) == pat
}

/// Whether `pat` occurs in `s`.
pub fn contains_text(s: &str, pat: &str) -> (r: bool)
    ensures
        r == occurs(s@, pat@),
{
    let n = s.unicode_len();
    let m = pat.unicode_len();
    if m > n {
        return false;
    }
    let mut i: usize = 0;
    while i <= n - m
        invariant
            n == s@.len(),
            m == pat@.len(),
            m <= n,
            i <= n - m + 1,
            forall|j: int| 0 <= j < i ==> #[trigger] s@.subrange(j, j + m) != pat@,
        decreases n - m + 1 - i,
    {
        let mut k: usize = 0;
        let mut same = true;
        while k < m
            invariant
                n == s@.len(),
                m == pat@.len(),
                i + m <= n,
                k <= m,
                same == (forall|t: int| 0 <= t < k ==> s@[i + t] == pat@[t]),
            decreases m - k,
        {
            if s.get_char(i + k) != pat.get_char(k) {
                same = false;
            }
            k = k + 1;
        }
        if same {
            proof {
                assert(s@.subrange(i as int, i + m) =~= pat@);
            }
            return true;
        }
        proof {
            let t = choose|t: int| 0 <= t < m && s@[i + t] != pat@[t];
            assert(s@.subrange(i as int, i + m)[t] != pat@[t]);
        }
        i = i + 1;
    }
    false
}

/// The style of a log line, by the first marker it holds in the order
/// `OK:`, `ERR:`, then `===` or `---`.
pub open spec fn style_of(line: Seq<char>) -> LineStyle {
    if occurs(line, "OK:"@) {
        LineStyle::Success
    } else if occurs(line, "ERR:"@) {
        LineStyle::Error
    } else if occurs(line, "==="@) || occurs(line, "---"@) {
        LineStyle::Heading
    } else {
        LineStyle::Plain
    }
}

/// The colour of a log line.
pub fn line_style(line: &str) -> (r: LineStyle)
    ensures
        r == style_of(line@),
{
    if contains_text(line, "OK:") {
        LineStyle::Success
    } else if contains_text(line, "ERR:") {
        LineStyle::Error
    } else if contains_text(line, "===") || contains_text(line, "---") {
        LineStyle::Heading
    } else {
        LineStyle::Plain
    }
}

} // verus!
