//! Position requirements: which slots a team fields, and the formula
//! for each position code.

use vstd::prelude::*;
use vstd::string::StrSliceExecFns;

verus! {

/// The slots a team must fill and the formula attached to each
/// position code.  A code with no formula entry defaults to a formula
/// that is the code itself (a plain stat lookup).
#[derive(Debug)]
pub struct PositionRequirements {
    /// Attacking slot codes, in order; a repeated code is one slot per
    /// occurrence.
    pub attacking: Vec<String>,
    /// Defensive slot codes, in order.
    pub defensive: Vec<String>,
    /// Formula for a position code; later entries never repeat an
    /// earlier key.
    pub position_to_calculation: Vec<(String, String)>,
}

/// No two formula entries share a key.
pub open spec fn calc_keys_distinct(m: Seq<(String, String)>) -> bool {
    forall|q1: int, q2: int| 0 <= q1 < q2 < m.len() ==> #[trigger] m[q1].0@ != #[trigger] m[q2].0@
}

/// A usable position code: nonempty and free of white space.
pub open spec fn code_ok(c: Seq<char>) -> bool {
    c.len() > 0 && (forall|i: int| 0 <= i < c.len() ==> !crate::text::is_space(#[trigger] c[i]))
}

/// Every code in the list is usable.
pub open spec fn codes_ok(list: Seq<String>) -> bool {
    forall|k: int| 0 <= k < list.len() ==> code_ok(#[trigger] list[k]@)
}

/// First formula entry at or after `k` whose key is exactly `code`.
pub open spec fn calc_lookup_from(m: Seq<(String, String)>, code: Seq<char>, k: int) -> Option<
    Seq<char>,
>
    decreases m.len() - k,
{
    if k < 0 || k >= m.len() {
        None
    } else if m[k].0@ == code {
        Some(m[k].1@)
    } else {
        calc_lookup_from(m, code, k + 1)
    }
}

/// The formula mapped to `code`, if any.
pub open spec fn calc_lookup(m: Seq<(String, String)>, code: Seq<char>) -> Option<Seq<char>> {
    calc_lookup_from(m, code, 0)
}

/// The formula used for a position: its mapping entry, or the code
/// itself when none exists.
pub open spec fn formula_of(m: Seq<(String, String)>, code: Seq<char>) -> Seq<char> {
    match calc_lookup(m, code) {
        Some(f) => f,
        None => code,
    }
}

/// First position in `[i, lim)` holding `c`, else `lim`.
pub open spec fn first_at(s: Seq<char>, c: char, i: int, lim: int) -> int
    decreases lim - i,
{
    if i < 0 || i >= lim {
        lim
    } else if s[i] == c {
        i
    } else {
        first_at(s, c, i + 1, lim)
    }
}

/// First position in `[i, lim - 1)` starting `//`, else `lim`.
pub open spec fn first_dd(s: Seq<char>, i: int, lim: int) -> int
    decreases lim - i,
{
    if i < 0 || i + 1 >= lim {
        lim
    } else if s[i] == '/' && s[i + 1] == '/' {
        i
    } else {
        first_dd(s, i + 1, lim)
    }
}

/// First non-space position in `[i, lim)`, else `lim`.
pub open spec fn skip_sp(s: Seq<char>, i: int, lim: int) -> int
    decreases lim - i,
{
    if i < 0 || i >= lim {
        lim
    } else if crate::text::is_space(s[i]) {
        skip_sp(s, i + 1, lim)
    } else {
        i
    }
}

/// End of `[a, b)` with trailing spaces dropped.
pub open spec fn rskip_sp(s: Seq<char>, a: int, b: int) -> int
    decreases b - a,
{
    if b <= a {
        a
    } else if crate::text::is_space(s[b - 1]) {
        rskip_sp(s, a, b - 1)
    } else {
        b
    }
}

/// `[from, to)` of `s` with surrounding white space dropped.
pub open spec fn trim_view(s: Seq<char>, from: int, to: int) -> Seq<char> {
    let a = skip_sp(s, from, to);
    let b = rskip_sp(s, a, to);
    s.subrange(a, b)
}

/// A composition line with comments cut: everything from the first
/// `#`, `//` or `;` on goes, and what remains is trimmed.
pub open spec fn trim_comment_view(s: Seq<char>) -> Seq<char> {
    let l1 = first_at(s, '#', 0, s.len() as int);
    let l2 = first_dd(s, 0, l1);
    let l3 = first_at(s, ';', 0, l2);
    trim_view(s, 0, l3)
}

/// Cuts `line` at the first `#`, `//` or `;`, then trims surrounding
/// white space: what remains of a composition line once comments go.
pub fn trim_comment(line: &str) -> (r: String)
    ensures
        r@ == trim_comment_view(line@),
{
    let n = line.unicode_len();
    // cut at the first '#'
    let mut l1: usize = 0;
    while l1 < n && line.get_char(l1) != '#'
        invariant
            l1 <= n,
            n == line@.len(),
            first_at(line@, '#', 0, n as int) == first_at(line@, '#', l1 as int, n as int),
        decreases n - l1,
    {
        l1 = l1 + 1;
    }
    proof {
        assert(first_at(line@, '#', 0, n as int) == l1 as int);
    }
    // cut at the first "//" before that
    let mut l2: usize = 0;
    while l1 - l2 > 1 && !(line.get_char(l2) == '/' && line.get_char(l2 + 1) == '/')
        invariant
            l2 <= l1 <= n == line@.len(),
            first_dd(line@, 0, l1 as int) == first_dd(line@, l2 as int, l1 as int),
        decreases l1 - l2,
    {
        l2 = l2 + 1;
    }
    let lim2 = if l1 - l2 > 1 {
        l2
    } else {
        l1
    };
    proof {
        assert(first_dd(line@, 0, l1 as int) == lim2 as int);
    }
    // cut at the first ';' before that
    let mut l3: usize = 0;
    while l3 < lim2 && line.get_char(l3) != ';'
        invariant
            l3 <= lim2 <= n == line@.len(),
            first_at(line@, ';', 0, lim2 as int) == first_at(line@, ';', l3 as int, lim2 as int),
        decreases lim2 - l3,
    {
        l3 = l3 + 1;
    }
    proof {
        assert(first_at(line@, ';', 0, lim2 as int) == l3 as int);
    }
    trim_range(line, 0, l3)
}

/// The sub-slice `[from, to)` of `s` with surrounding white space
/// dropped.
pub fn trim_range(s: &str, from: usize, to: usize) -> (r: String)
    requires
        from <= to <= s@.len(),
    ensures
        r@ == trim_view(s@, from as int, to as int),
{
    let mut a = from;
    while a < to && crate::text::is_space_char(s.get_char(a))
        invariant
            from <= a <= to <= s@.len(),
            skip_sp(s@, from as int, to as int) == skip_sp(s@, a as int, to as int),
        decreases to - a,
    {
        a = a + 1;
    }
    proof {
        assert(skip_sp(s@, from as int, to as int) == a as int);
    }
    let mut b = to;
    while b > a && crate::text::is_space_char(s.get_char(b - 1))
        invariant
            a <= b <= to <= s@.len(),
            rskip_sp(s@, a as int, to as int) == rskip_sp(s@, a as int, b as int),
        decreases b - a,
    {
        b = b - 1;
    }
    proof {
        assert(rskip_sp(s@, a as int, to as int) == b as int);
    }
    s.substring_char(a, b).to_owned()
}

/// Appends the white-space-separated tokens of `s@[from..to)`.
fn push_tokens(s: &str, from: usize, to: usize, out: &mut Vec<String>)
    requires
        from <= to <= s@.len(),
        codes_ok(old(out)@),
    ensures
        codes_ok(final(out)@),
{
    let mut i = from;
    while i < to
        invariant
            from <= i <= to <= s@.len(),
            codes_ok(out@),
        decreases to - i,
    {
        if crate::text::is_space_char(s.get_char(i)) {
            i = i + 1;
        } else {
            let start = i;
            i = i + 1;
            while i < to && !crate::text::is_space_char(s.get_char(i))
                invariant
                    from <= start < i <= to <= s@.len(),
                    forall|x: int| start <= x < i ==> !crate::text::is_space(#[trigger] s@[x]),
                decreases to - i,
            {
                i = i + 1;
            }
            let tok = s.substring_char(start, i).to_owned();
            proof {
                assert(tok@ =~= s@.subrange(start as int, i as int));
                assert(code_ok(tok@));
            }
            out.push(tok);
        }
    }
}

/// Replaces the entry for `key`, or appends one, keeping keys unique.
fn calc_insert(m: &mut Vec<(String, String)>, key: String, value: String)
    requires
        calc_keys_distinct(old(m)@),
    ensures
        calc_keys_distinct(final(m)@),
{
    let mut q: usize = 0;
    while q < m.len()
        invariant
            q <= m.len(),
            calc_keys_distinct(m@),
            forall|x: int| 0 <= x < q ==> m@[x].0@ != key@,
        decreases m.len() - q,
    {
        if crate::text::str_eq(m[q].0.as_str(), key.as_str()) {
            let ghost before = m@;
            m.set(q, (key, value));
            proof {
                assert(m@[q as int].0@ == before[q as int].0@);
                assert(forall|x: int| 0 <= x < m@.len() && x != q ==> m@[x] == before[x]);
            }
            return;
        }
        q = q + 1;
    }
    m.push((key, value));
}

/// Parses a composition text: `Offense:`/`Defense:` lines list slot
/// codes, `code = formula` lines map codes to formulas, `#`, `//` and
/// `;` start comments, and anything else is ignored.  Section names
/// are matched regardless of case; a later formula line for the same
/// code replaces the earlier one.
pub fn parse_composition(text: &str) -> (r: PositionRequirements)
    ensures
        calc_keys_distinct(r.position_to_calculation@),
        codes_ok(r.attacking@),
        codes_ok(r.defensive@),
{
    let mut attacking: Vec<String> = Vec::new();
    let mut defensive: Vec<String> = Vec::new();
    let mut calc: Vec<(String, String)> = Vec::new();

    let n = text.unicode_len();
    let mut pos: usize = 0;
    while pos < n
        invariant
            pos <= n,
            n == text@.len(),
            calc_keys_distinct(calc@),
            codes_ok(attacking@),
            codes_ok(defensive@),
        decreases n - pos,
    {
        // find the end of this line
        let mut e = pos;
        while e < n && text.get_char(e) != '\n'
            invariant
                pos <= e <= n == text@.len(),
            decreases n - e,
        {
            e = e + 1;
        }
        // drop one trailing '\r'
        let le = if e > pos && text.get_char(e - 1) == '\r' {
            e - 1
        } else {
            e
        };
        let raw = text.substring_char(pos, le);
        let line = trim_comment(raw);
        pos = if e < n {
            e + 1
        } else {
            n
        };

        let ln = line.as_str();
        let m = ln.unicode_len();
        if m == 0 || ln.get_char(0) == '#' {
            continue;
        }
        // a `key = value` formula line?
        let mut e1: usize = 0;
        while e1 < m && ln.get_char(e1) != '='
            invariant
                e1 <= m == ln@.len(),
            decreases m - e1,
        {
            e1 = e1 + 1;
        }
        if e1 < m {
            let key = trim_range(ln, 0, e1);
            let value = trim_range(ln, e1 + 1, m);
            calc_insert(&mut calc, key, value);
            continue;
        }
        // an `Offense:`/`Defense:` slot line?
        let mut e2: usize = 0;
        while e2 < m && ln.get_char(e2) != ':'
            invariant
                e2 <= m == ln@.len(),
            decreases m - e2,
        {
            e2 = e2 + 1;
        }
        if e2 < m {
            let prefix = trim_range(ln, 0, e2);
            if crate::text::str_eq_ic(prefix.as_str(), "offense") {
                push_tokens(ln, e2 + 1, m, &mut attacking);
            } else if crate::text::str_eq_ic(prefix.as_str(), "defense") {
                push_tokens(ln, e2 + 1, m, &mut defensive);
            }
        }
    }

    PositionRequirements { attacking, defensive, position_to_calculation: calc }
}

} // verus!
