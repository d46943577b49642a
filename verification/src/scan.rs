//! Scanning character sequences: finding a character, splitting on a separator,
//! splitting text into CRLF-terminated lines.

use vstd::prelude::*;

verus! {

/// The index of the first occurrence of `c` in `s`, if any.
pub open spec fn first_index(s: Seq<char>, c: char) -> Option<int>
    decreases s.len(),
{
    if s.len() == 0 {
        None
    } else if s[0] == c {
        Some(0)
    } else {
        match first_index(s.drop_first(), c) {
            Some(i) => Some(i + 1),
            None => None,
        }
    }
}

/// The pieces of `s` between occurrences of `c` (always at least one piece).
pub open spec fn split_on(s: Seq<char>, c: char) -> Seq<Seq<char>>
    decreases s.len(),
{
    match first_index(s, c) {
        Some(i) => {
            if 0 <= i < s.len() {
                seq![s.take(i)] + split_on(s.skip(i + 1), c)
            } else {
                seq![s]
            }
        },
        None => seq![s],
    }
}

/// `first_index` finds the first occurrence.
pub proof fn lemma_first_index(s: Seq<char>, c: char)
    ensures
        match first_index(s, c) {
            Some(i) => 0 <= i < s.len() && s[i] == c && forall|k: int| 0 <= k < i ==> s[k] != c,
            None => forall|k: int| 0 <= k < s.len() ==> s[k] != c,
        },
    decreases s.len(),
{
    if s.len() > 0 && s[0] != c {
        lemma_first_index(s.drop_first(), c);
        match first_index(s.drop_first(), c) {
            Some(i) => {
                assert forall|k: int| 0 <= k < i + 1 implies s[k] != c by {
                    if k > 0 {
                        assert(s[k] == s.drop_first()[k - 1]);
                    }
                }
            },
            None => {
                assert forall|k: int| 0 <= k < s.len() implies s[k] != c by {
                    if k > 0 {
                        assert(s[k] == s.drop_first()[k - 1]);
                    }
                }
            },
        }
    }
}

/// Characterises `first_index` by where `c` occurs.
pub proof fn lemma_first_index_is(s: Seq<char>, c: char, i: int)
    requires
        0 <= i <= s.len(),
        forall|k: int| 0 <= k < i ==> s[k] != c,
        i < s.len() ==> s[i] == c,
    ensures
        first_index(s, c) == (if i < s.len() { Some(i) } else { None::<int> }),
    decreases s.len(),
{
    if s.len() > 0 && s[0] != c {
        assert forall|k: int| 0 <= k < i - 1 implies s.drop_first()[k] != c by {
            assert(s.drop_first()[k] == s[k + 1]);
        }
        lemma_first_index_is(s.drop_first(), c, i - 1);
    }
}

/// The first index of `c` in `v[from..to]`, as an absolute index into `v`.
pub fn find_char(v: &Vec<char>, from: usize, to: usize, c: char) -> (r: Option<usize>)
    requires
        from <= to <= v.len(),
    ensures
        match first_index(v@.subrange(from as int, to as int), c) {
            Some(i) => r matches Some(k) && k == from + i,
            None => r is None,
        },
        r matches Some(k) ==> from <= k < to,
{
    let ghost s = v@.subrange(from as int, to as int);
    let mut i = from;
    while i < to
        invariant
            from <= i <= to <= v.len(),
            s == v@.subrange(from as int, to as int),
            forall|k: int| 0 <= k < i - from ==> s[k] != c,
        decreases to - i,
    {
        if v[i] == c {
            proof {
                lemma_first_index_is(s, c, i - from);
            }
            return Some(i);
        }
        i = i + 1;
    }
    proof {
        lemma_first_index_is(s, c, s.len() as int);
    }
    None
}

/// The pieces of a run of characters given by index ranges into `v`.
pub open spec fn ranges_view(v: Seq<char>, rs: Seq<(usize, usize)>) -> Seq<Seq<char>> {
    rs.map_values(|r: (usize, usize)| v.subrange(r.0 as int, r.1 as int))
}

pub open spec fn ranges_within(rs: Seq<(usize, usize)>, from: int, to: int) -> bool {
    forall|k: int| 0 <= k < rs.len() ==> from <= (#[trigger] rs[k]).0 <= rs[k].1 <= to
}

/// Splits `v[from..to]` on `c`, giving the index range of each piece.
pub fn split_ranges(v: &Vec<char>, from: usize, to: usize, c: char) -> (rs: Vec<(usize, usize)>)
    requires
        from <= to <= v.len(),
    ensures
        ranges_view(v@, rs@) == split_on(v@.subrange(from as int, to as int), c),
        ranges_within(rs@, from as int, to as int),
{
    let mut rs: Vec<(usize, usize)> = Vec::new();
    let mut start = from;
    loop
        invariant
            from <= start <= to <= v.len(),
            ranges_within(rs@, from as int, to as int),
            split_on(v@.subrange(from as int, to as int), c) == ranges_view(v@, rs@) + split_on(
                v@.subrange(start as int, to as int),
                c,
            ),
        decreases to - start,
    {
        let ghost rest = v@.subrange(start as int, to as int);
        match find_char(v, start, to, c) {
            Some(k) => {
                proof {
                    lemma_first_index(rest, c);
                    assert(rest.take(k - start) =~= v@.subrange(start as int, k as int));
                    assert(rest.skip(k - start + 1) =~= v@.subrange(k + 1, to as int));
                    assert(split_on(rest, c) == seq![rest.take(k - start)] + split_on(
                        rest.skip(k - start + 1),
                        c,
                    ));
                }
                let ghost before = rs@;
                rs.push((start, k));
                proof {
                    assert(ranges_view(v@, rs@) =~= ranges_view(v@, before) + seq![
                        v@.subrange(start as int, k as int),
                    ]);
                    assert(split_on(v@.subrange(from as int, to as int), c) =~= ranges_view(v@, rs@)
                        + split_on(v@.subrange(k + 1, to as int), c));
                }
                start = k + 1;
            },
            None => {
                let ghost before = rs@;
                rs.push((start, to));
                proof {
                    assert(split_on(rest, c) == seq![rest]);
                    assert(ranges_view(v@, rs@) =~= ranges_view(v@, before) + seq![rest]);
                }
                return rs;
            },
        }
    }
}

// ---------------------------------------------------------------------------
// Lines
// ---------------------------------------------------------------------------

pub open spec fn is_break(c: char) -> bool {
    c == '\r' || c == '\n'
}

/// The number of leading characters of `s` before the first CR or LF.
pub open spec fn line_len(s: Seq<char>) -> nat
    decreases s.len(),
{
    if s.len() == 0 || is_break(s[0]) {
        0
    } else {
        1 + line_len(s.drop_first())
    }
}

/// `s` read as lines each ended by CRLF (a line holds neither CR nor LF), or `None` where `s`
/// is not of that form.
pub open spec fn split_lines(s: Seq<char>) -> Option<Seq<Seq<char>>>
    decreases s.len(),
{
    if s.len() == 0 {
        Some(Seq::empty())
    } else {
        let n = line_len(s) as int;
        if n + 2 <= s.len() && s[n] == '\r' && s[n + 1] == '\n' {
            match split_lines(s.skip(n + 2)) {
                Some(rest) => Some(seq![s.take(n)] + rest),
                None => None,
            }
        } else {
            None
        }
    }
}

pub proof fn lemma_line_len_is(s: Seq<char>, n: int)
    requires
        0 <= n <= s.len(),
        forall|k: int| 0 <= k < n ==> !is_break(s[k]),
        n < s.len() ==> is_break(s[n]),
    ensures
        line_len(s) == n,
    decreases s.len(),
{
    if s.len() > 0 && !is_break(s[0]) {
        assert forall|k: int| 0 <= k < n - 1 implies !is_break(s.drop_first()[k]) by {
            assert(s.drop_first()[k] == s[k + 1]);
        }
        lemma_line_len_is(s.drop_first(), n - 1);
    }
}

/// Splits `v` into CRLF-terminated lines, giving the index range of each line (without its
/// CRLF), or `None` where `v` is not a sequence of such lines.
pub fn line_ranges(v: &Vec<char>) -> (r: Option<Vec<(usize, usize)>>)
    ensures
        match split_lines(v@) {
            Some(ls) => r matches Some(rs) && ranges_view(v@, rs@) == ls && ranges_within(
                rs@,
                0,
                v.len() as int,
            ),
            None => r is None,
        },
{
    let mut rs: Vec<(usize, usize)> = Vec::new();
    let mut pos: usize = 0;
    let n = v.len();
    assert(v@.subrange(0, n as int) =~= v@);
    while pos < n
        invariant
            pos <= n == v.len(),
            ranges_within(rs@, 0, n as int),
            split_lines(v@) == match split_lines(v@.subrange(pos as int, n as int)) {
                Some(rest) => Some(ranges_view(v@, rs@) + rest),
                None => None::<Seq<Seq<char>>>,
            },
        decreases n - pos,
    {
        let ghost rest = v@.subrange(pos as int, n as int);
        let mut e = pos;
        while e < n && v[e] != '\r' && v[e] != '\n'
            invariant
                pos <= e <= n == v.len(),
                forall|k: int| pos <= k < e ==> !is_break(v@[k]),
            decreases n - e,
        {
            e = e + 1;
        }
        proof {
            lemma_line_len_is(rest, e - pos);
        }
        if e < n && e + 1 < n && v[e] == '\r' && v[e + 1] == '\n' {
            let ghost before = rs@;
            rs.push((pos, e));
            proof {
                assert(rest.take(e - pos) =~= v@.subrange(pos as int, e as int));
                assert(rest.skip(e - pos + 2) =~= v@.subrange(e + 2, n as int));
                assert(ranges_view(v@, rs@) =~= ranges_view(v@, before) + seq![
                    v@.subrange(pos as int, e as int),
                ]);
                match split_lines(v@.subrange(e + 2, n as int)) {
                    Some(r2) => {
                        assert(ranges_view(v@, before) + (seq![v@.subrange(pos as int, e as int)]
                            + r2) =~= ranges_view(v@, rs@) + r2);
                    },
                    None => {},
                }
            }
            pos = e + 2;
        } else {
            return None;
        }
    }
    proof {
        assert(v@.subrange(pos as int, n as int) =~= Seq::<char>::empty());
        assert(ranges_view(v@, rs@) + Seq::<Seq<char>>::empty() =~= ranges_view(v@, rs@));
    }
    Some(rs)
}

} // verus!
