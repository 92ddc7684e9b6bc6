//! Roster text parsing: a header line naming the stat columns, then
//! two lines per player (name, then a tab-separated stat line).

use vstd::prelude::*;
use vstd::string::StrSliceExecFns;
use crate::player::Player;
use crate::composition::trim_range;
use crate::text::{is_digit, is_digit_char, str_eq};

verus! {

/// The unsigned value of a digit run, read left to right; `None` at
/// the first non-digit.
pub open spec fn digits_val(s: Seq<char>, i: int, acc: int) -> Option<int>
    decreases s.len() - i,
{
    if i < 0 || i >= s.len() {
        Some(acc)
    } else if is_digit(s[i]) {
        digits_val(s, i + 1, acc * 10 + (s[i] as u32 - 0x30))
    } else {
        None
    }
}

/// What `str::parse::<i32>` accepts: an optional sign, then one or
/// more digits, with the signed value in range.
pub open spec fn parse_i32_spec(s: Seq<char>) -> Option<i32> {
    let start: int = if s.len() > 0 && (s[0] == '+' || s[0] == '-') {
        1
    } else {
        0
    };
    if s.len() <= start {
        None
    } else {
        match digits_val(s, start, 0) {
            None => None,
            Some(v) => {
                let signed: int = if s.len() > 0 && s[0] == '-' {
                    -v
                } else {
                    v
                };
                if i32::MIN <= signed <= i32::MAX {
                    Some(signed as i32)
                } else {
                    None
                }
            },
        }
    }
}

proof fn lemma_digits_all(s: Seq<char>, i: int, acc: int)
    requires
        0 <= i <= s.len(),
        acc >= 0,
        forall|x: int| i <= x < s.len() ==> is_digit(#[trigger] s[x]),
    ensures
        (match digits_val(s, i, acc) {
            Some(v) => v >= acc,
            None => false,
        }),
    decreases s.len() - i,
{
    if i < s.len() {
        lemma_digits_all(s, i + 1, acc * 10 + (s[i] as u32 - 0x30));
    }
}

proof fn lemma_digits_stop(s: Seq<char>, i: int, j: int, acc: int)
    requires
        0 <= i <= j < s.len(),
        forall|x: int| i <= x < j ==> is_digit(#[trigger] s[x]),
        !is_digit(s[j]),
    ensures
        digits_val(s, i, acc) is None,
    decreases j - i,
{
    if i < j {
        lemma_digits_stop(s, i + 1, j, acc * 10 + (s[i] as u32 - 0x30));
    }
}

/// Parses a decimal integer exactly as `str::parse::<i32>` does.
pub fn parse_i32(s: &str) -> (r: Option<i32>)
    ensures
        r == parse_i32_spec(s@),
{
    let n = s.unicode_len();
    let mut i: usize = 0;
    let mut neg = false;
    if n > 0 {
        let c0 = s.get_char(0);
        if c0 == '+' || c0 == '-' {
            i = 1;
            neg = c0 == '-';
        }
    }
    let ghost start = i as int;
    if i >= n {
        return None;
    }
    let mut acc: i64 = 0;
    while i < n
        invariant
            n == s@.len(),
            start <= i <= n,
            0 <= acc,
            start == (if s@.len() > 0 && (s@[0] == '+' || s@[0] == '-') {
                1int
            } else {
                0int
            }),
            digits_val(s@, start, 0) == digits_val(s@, i as int, acc as int),
        decreases n - i,
    {
        let c = s.get_char(i);
        if !is_digit_char(c) {
            return None;
        }
        if acc > 0x8000_0000i64 {
            // Already beyond the 32-bit range: if the rest are digits
            // the value only grows, and a later non-digit rejects the
            // parse anyway.
            let mut j = i;
            while j < n
                invariant
                    n == s@.len(),
                    start <= i <= j <= n,
                    0 <= acc,
                    acc > 0x8000_0000i64,
                    start == (if s@.len() > 0 && (s@[0] == '+' || s@[0] == '-') {
                        1int
                    } else {
                        0int
                    }),
                    digits_val(s@, start, 0) == digits_val(s@, i as int, acc as int),
                    forall|x: int| i <= x < j ==> is_digit(#[trigger] s@[x]),
                decreases n - j,
            {
                if !is_digit_char(s.get_char(j)) {
                    proof {
                        lemma_digits_stop(s@, i as int, j as int, acc as int);
                    }
                    return None;
                }
                j = j + 1;
            }
            proof {
                lemma_digits_all(s@, i as int, acc as int);
            }
            return None;
        }
        acc = acc * 10 + (((c as u32) - 0x30) as i64);
        i = i + 1;
    }
    let v: i64 = if neg {
        -acc
    } else {
        acc
    };
    if v < -0x8000_0000i64 || v > 0x7FFF_FFFFi64 {
        None
    } else {
        Some(v as i32)
    }
}

/// No two stat entries share a code.
pub open spec fn stat_keys_distinct(st: Seq<(String, i32)>) -> bool {
    forall|q1: int, q2: int| 0 <= q1 < q2 < st.len() ==> #[trigger] st[q1].0@ != #[trigger] st[q2].0@
}

fn stats_insert(st: &mut Vec<(String, i32)>, key: String, value: i32)
    requires
        stat_keys_distinct(old(st)@),
    ensures
        stat_keys_distinct(final(st)@),
{
    let mut q: usize = 0;
    while q < st.len()
        invariant
            q <= st.len(),
            stat_keys_distinct(st@),
            forall|x: int| 0 <= x < q ==> st@[x].0@ != key@,
        decreases st.len() - q,
    {
        if str_eq(st[q].0.as_str(), key.as_str()) {
            let ghost before = st@;
            st.set(q, (key, value));
            proof {
                assert(st@[q as int].0@ == before[q as int].0@);
                assert(forall|x: int| 0 <= x < st@.len() && x != q ==> st@[x] == before[x]);
            }
            return;
        }
        q = q + 1;
    }
    st.push((key, value));
}

/// The lines of a text, split at `\n` with one trailing `\r` dropped
/// from each line.
pub fn split_lines(text: &str) -> (r: Vec<String>) {
    let n = text.unicode_len();
    let mut out: Vec<String> = Vec::new();
    let mut pos: usize = 0;
    while pos < n
        invariant
            pos <= n,
            n == text@.len(),
        decreases n - pos,
    {
        let mut e = pos;
        while e < n && text.get_char(e) != '\n'
            invariant
                pos <= e <= n == text@.len(),
            decreases n - e,
        {
            e = e + 1;
        }
        let le = if e > pos && text.get_char(e - 1) == '\r' {
            e - 1
        } else {
            e
        };
        out.push(text.substring_char(pos, le).to_owned());
        pos = if e < n {
            e + 1
        } else {
            n
        };
    }
    out
}

/// The white-space-separated tokens of a line.
fn line_tokens(s: &str) -> (r: Vec<String>) {
    let n = s.unicode_len();
    let mut out: Vec<String> = Vec::new();
    let mut i: usize = 0;
    while i < n
        invariant
            i <= n == s@.len(),
        decreases n - i,
    {
        if crate::text::is_space_char(s.get_char(i)) {
            i = i + 1;
        } else {
            let start = i;
            i = i + 1;
            while i < n && !crate::text::is_space_char(s.get_char(i))
                invariant
                    start < i <= n == s@.len(),
                decreases n - i,
            {
                i = i + 1;
            }
            out.push(s.substring_char(start, i).to_owned());
        }
    }
    out
}

/// The fields of a tab-separated line.
fn tab_fields(s: &str) -> (r: Vec<String>) {
    let n = s.unicode_len();
    let mut out: Vec<String> = Vec::new();
    let mut pos: usize = 0;
    while pos <= n
        invariant
            pos <= n,
            n == s@.len(),
        decreases n - pos,
    {
        let mut e = pos;
        while e < n && s.get_char(e) != '\t'
            invariant
                pos <= e <= n == s@.len(),
            decreases n - e,
        {
            e = e + 1;
        }
        out.push(s.substring_char(pos, e).to_owned());
        if e >= n {
            break;
        }
        pos = e + 1;
    }
    out
}

/// The name with a leading `[CAPTAIN] ` marker removed.
fn strip_captain(name: &str) -> (r: String) {
    let n = name.unicode_len();
    let marker = "[CAPTAIN] ";
    let m = marker.unicode_len();
    if n >= m {
        let mut i: usize = 0;
        let mut matched = true;
        while i < m
            invariant
                i <= m <= n == name@.len(),
                m == marker@.len(),
            decreases m - i,
        {
            if name.get_char(i) != marker.get_char(i) {
                matched = false;
                break;
            }
            i = i + 1;
        }
        if matched {
            return name.substring_char(m, n).to_owned();
        }
    }
    name.to_owned()
}

/// Parses a roster text.  The first non-blank line is the header and
/// must start with `Name`; after it each player is a name line (an
/// optional `[CAPTAIN] ` marker is dropped) followed by a
/// tab-separated stat line whose first field is skipped.  A player
/// whose stat line is blank, has no tab, or disagrees with the header
/// in column count is skipped; a stat whose value is no integer is
/// dropped.  Returns `None` when the header does not start with
/// `Name`.
pub fn read_roster(text: &str) -> (r: Option<Vec<Player>>)
    ensures
        (match r {
            Some(ps) => forall|p: int|
                0 <= p < ps@.len() ==> stat_keys_distinct(#[trigger] ps@[p].stats@),
            None => true,
        }),
{
    let lines = split_lines(text);
    let mut players: Vec<Player> = Vec::new();
    let mut li: usize = 0;

    // find the header line
    let mut header: Option<Vec<String>> = None;
    while li < lines.len() && header.is_none()
        invariant
            li <= lines.len(),
        decreases lines.len() - li,
    {
        let t = trim_range(lines[li].as_str(), 0, lines[li].as_str().unicode_len());
        if t.as_str().unicode_len() > 0 {
            header = Some(line_tokens(lines[li].as_str()));
        }
        li = li + 1;
    }
    let header_fields = match header {
        None => {
            return Some(players);
        },
        Some(h) => h,
    };
    if header_fields.len() == 0 || !str_eq(header_fields[0].as_str(), "Name") {
        return None;
    }

    // read players, two lines each
    while li < lines.len()
        invariant
            li <= lines.len(),
            header_fields.len() >= 1,
            forall|p: int|
                0 <= p < players@.len() ==> stat_keys_distinct(#[trigger] players@[p].stats@),
        decreases lines.len() - li,
    {
        let name_raw = trim_range(lines[li].as_str(), 0, lines[li].as_str().unicode_len());
        li = li + 1;
        if name_raw.as_str().unicode_len() == 0 {
            continue;
        }
        let name = strip_captain(name_raw.as_str());
        if li >= lines.len() {
            break;
        }
        let stat_line = trim_range(lines[li].as_str(), 0, lines[li].as_str().unicode_len());
        li = li + 1;
        if stat_line.as_str().unicode_len() == 0 {
            continue;
        }
        let parts = tab_fields(stat_line.as_str());
        if parts.len() <= 1 {
            continue;
        }
        if parts.len() - 1 != header_fields.len() - 1 {
            continue;
        }
        let mut stats: Vec<(String, i32)> = Vec::new();
        let mut f: usize = 1;
        while f < header_fields.len()
            invariant
                1 <= f <= header_fields.len(),
                parts@.len() == header_fields@.len(),
                stat_keys_distinct(stats@),
            decreases header_fields.len() - f,
        {
            let tok = trim_range(parts[f].as_str(), 0, parts[f].as_str().unicode_len());
            match parse_i32(tok.as_str()) {
                Some(v) => {
                    stats_insert(&mut stats, header_fields[f].clone(), v);
                },
                None => {},
            }
            f = f + 1;
        }
        players.push(Player { name, stats });
    }
    Some(players)
}

} // verus!
