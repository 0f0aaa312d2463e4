//! Where the parts of a JSON text lie: the extent of a value, the elements of
//! an array and the members of an object, in text order.
//!
//! The reading works on the bytes of a text that serde_json has already
//! accepted; every structural character of JSON is ASCII, so it never cuts a
//! multi-byte character. Positions are byte offsets; a span `(a, b)` covers
//! the bytes from `a` up to, not including, `b`. Repeated object keys are
//! kept, each where it stands.
use vstd::prelude::*;

verus! {

/// JSON whitespace: space, tab, line feed, carriage return.
pub open spec fn is_ws(b: u8) -> bool {
    b == 32 || b == 9 || b == 10 || b == 13
}

/// The bytes that end a number or a literal: whitespace, `,`, `]`, `}`.
pub open spec fn ends_scalar(b: u8) -> bool {
    is_ws(b) || b == 44 || b == 93 || b == 125
}

/// The first position from `i` on that is not whitespace.
pub open spec fn skip_ws(t: Seq<u8>, i: int) -> int
    decreases t.len() - i,
{
    if 0 <= i < t.len() && is_ws(t[i]) {
        skip_ws(t, i + 1)
    } else {
        i
    }
}

/// The end of a number or literal that starts at `i`.
pub open spec fn scalar_end(t: Seq<u8>, i: int) -> int
    decreases t.len() - i,
{
    if 0 <= i < t.len() && !ends_scalar(t[i]) {
        scalar_end(t, i + 1)
    } else {
        i
    }
}

/// The position just after the closing quote of a string whose contents
/// start at `i` (a backslash escapes the byte after it).
pub open spec fn string_end(t: Seq<u8>, i: int) -> int
    decreases t.len() - i,
{
    if i < 0 || i >= t.len() {
        t.len() as int
    } else if t[i] == 34 {
        i + 1
    } else if t[i] == 92 {
        if i + 1 < t.len() {
            string_end(t, i + 2)
        } else {
            t.len() as int
        }
    } else {
        string_end(t, i + 1)
    }
}

/// The position just after the bracket that closes the array or object
/// opened `depth` levels up, scanning from `i`.
pub open spec fn nested_end(t: Seq<u8>, i: int, depth: nat) -> int
    decreases t.len() - i,
{
    if i < 0 || i >= t.len() {
        t.len() as int
    } else if t[i] == 34 {
        let s = string_end(t, i + 1);
        if s <= i || s > t.len() {
            t.len() as int
        } else {
            nested_end(t, s, depth)
        }
    } else if t[i] == 91 || t[i] == 123 {
        nested_end(t, i + 1, depth + 1)
    } else if t[i] == 93 || t[i] == 125 {
        if depth <= 1 {
            i + 1
        } else {
            nested_end(t, i + 1, (depth - 1) as nat)
        }
    } else {
        nested_end(t, i + 1, depth)
    }
}

/// The end of the JSON value that starts at `i`.
pub open spec fn value_end(t: Seq<u8>, i: int) -> int {
    if i < 0 || i >= t.len() {
        i
    } else if t[i] == 34 {
        string_end(t, i + 1)
    } else if t[i] == 91 || t[i] == 123 {
        nested_end(t, i + 1, 1)
    } else {
        scalar_end(t, i)
    }
}

/// The spans of the elements of an array, reading from `i`, just after its
/// `[` or after a `,`.
pub open spec fn items_from(t: Seq<u8>, i: int) -> Seq<(int, int)>
    decreases t.len() - i,
{
    let j = skip_ws(t, i);
    if !(0 <= j < t.len()) || t[j] == 93 {
        Seq::empty()
    } else {
        let e = value_end(t, j);
        let k = skip_ws(t, e);
        if 0 <= k < t.len() && t[k] == 44 && k + 1 > i {
            seq![(j, e)] + items_from(t, k + 1)
        } else {
            seq![(j, e)]
        }
    }
}

/// The key and value spans of the members of an object, reading from `i`,
/// just after its `{` or after a `,`. A key span covers the key's quotes.
pub open spec fn members_from(t: Seq<u8>, i: int) -> Seq<(int, int, int, int)>
    decreases t.len() - i,
{
    let j = skip_ws(t, i);
    if !(0 <= j < t.len()) || t[j] != 34 {
        Seq::empty()
    } else {
        let ke = string_end(t, j + 1);
        let c = skip_ws(t, ke);
        if !(0 <= c < t.len()) || t[c] != 58 {
            Seq::empty()
        } else {
            let v = skip_ws(t, c + 1);
            let ve = value_end(t, v);
            let k = skip_ws(t, ve);
            if 0 <= k < t.len() && t[k] == 44 && k + 1 > i {
                seq![(j, ke, v, ve)] + members_from(t, k + 1)
            } else {
                seq![(j, ke, v, ve)]
            }
        }
    }
}

/// The spans as integer positions.
pub open spec fn item_spans(r: Seq<(usize, usize)>) -> Seq<(int, int)> {
    r.map_values(|p: (usize, usize)| (p.0 as int, p.1 as int))
}

/// The member spans as integer positions.
pub open spec fn member_spans(r: Seq<(usize, usize, usize, usize)>) -> Seq<(int, int, int, int)> {
    r.map_values(|p: (usize, usize, usize, usize)| (p.0 as int, p.1 as int, p.2 as int, p.3 as int))
}

proof fn lemma_string_end(t: Seq<u8>, i: int)
    requires
        0 <= i <= t.len(),
    ensures
        i <= string_end(t, i) <= t.len(),
        i < t.len() ==> i < string_end(t, i),
    decreases t.len() - i,
{
    if i < t.len() && t[i] != 34 {
        if t[i] == 92 {
            if i + 1 < t.len() {
                lemma_string_end(t, i + 2);
            }
        } else {
            lemma_string_end(t, i + 1);
        }
    }
}

pub fn skip_ws_at(t: &[u8], start: usize) -> (r: usize)
    requires
        start <= t@.len(),
    ensures
        r as int == skip_ws(t@, start as int),
        start <= r <= t@.len(),
{
    let mut i = start;
    while i < t.len()
        invariant
            start <= i <= t@.len(),
            skip_ws(t@, i as int) == skip_ws(t@, start as int),
        decreases t@.len() - i,
    {
        let b = t[i];
        if !(b == 32 || b == 9 || b == 10 || b == 13) {
            return i;
        }
        i = i + 1;
    }
    i
}

fn scalar_end_at(t: &[u8], start: usize) -> (r: usize)
    requires
        start <= t@.len(),
    ensures
        r as int == scalar_end(t@, start as int),
        start <= r <= t@.len(),
{
    let mut i = start;
    while i < t.len()
        invariant
            start <= i <= t@.len(),
            scalar_end(t@, i as int) == scalar_end(t@, start as int),
        decreases t@.len() - i,
    {
        let b = t[i];
        if b == 32 || b == 9 || b == 10 || b == 13 || b == 44 || b == 93 || b == 125 {
            return i;
        }
        i = i + 1;
    }
    i
}

fn string_end_at(t: &[u8], start: usize) -> (r: usize)
    requires
        start <= t@.len(),
    ensures
        r as int == string_end(t@, start as int),
        start <= r <= t@.len(),
        start < t@.len() ==> start < r,
{
    let mut i = start;
    loop
        invariant
            start <= i <= t@.len(),
            string_end(t@, i as int) == string_end(t@, start as int),
            start < t@.len() ==> (start < i || i == start),
        decreases t@.len() - i,
    {
        if i >= t.len() {
            return t.len();
        }
        if t[i] == 34 {
            return i + 1;
        }
        if t[i] == 92 {
            if i + 1 < t.len() {
                i = i + 2;
            } else {
                return t.len();
            }
        } else {
            i = i + 1;
        }
    }
}

fn nested_end_at(t: &[u8], start: usize, depth0: usize) -> (r: usize)
    requires
        start <= t@.len(),
        depth0 <= start,
    ensures
        r as int == nested_end(t@, start as int, depth0 as nat),
        start <= r <= t@.len(),
{
    let mut i = start;
    let mut depth = depth0;
    loop
        invariant
            start <= i <= t@.len(),
            depth <= i,
            nested_end(t@, i as int, depth as nat) == nested_end(t@, start as int, depth0 as nat),
        decreases t@.len() - i,
    {
        if i >= t.len() {
            return t.len();
        }
        let b = t[i];
        if b == 34 {
            let s = string_end_at(t, i + 1);
            proof {
                lemma_string_end(t@, i + 1);
            }
            i = s;
        } else if b == 91 || b == 123 {
            i = i + 1;
            depth = depth + 1;
        } else if b == 93 || b == 125 {
            if depth <= 1 {
                return i + 1;
            }
            i = i + 1;
            depth = depth - 1;
        } else {
            i = i + 1;
        }
    }
}

/// The end of the JSON value that starts at `start`.
pub fn value_end_at(t: &[u8], start: usize) -> (r: usize)
    requires
        start <= t@.len(),
    ensures
        r as int == value_end(t@, start as int),
        start <= r <= t@.len(),
{
    if start >= t.len() {
        return start;
    }
    let b = t[start];
    if b == 34 {
        string_end_at(t, start + 1)
    } else if b == 91 || b == 123 {
        nested_end_at(t, start + 1, 1)
    } else {
        scalar_end_at(t, start)
    }
}

/// The spans of the elements of the array whose contents start at `start`.
pub fn array_items(t: &[u8], start: usize) -> (r: Vec<(usize, usize)>)
    requires
        start <= t@.len(),
    ensures
        item_spans(r@) == items_from(t@, start as int),
        forall|k: int| 0 <= k < r@.len() ==> (#[trigger] r@[k]).0 <= r@[k].1 <= t@.len(),
{
    let mut acc: Vec<(usize, usize)> = Vec::new();
    let mut i = start;
    loop
        invariant
            i <= t@.len(),
            items_from(t@, start as int) == item_spans(acc@) + items_from(t@, i as int),
            forall|k: int| 0 <= k < acc@.len() ==> (#[trigger] acc@[k]).0 <= acc@[k].1 <= t@.len(),
        decreases t@.len() - i,
    {
        let j = skip_ws_at(t, i);
        if j >= t.len() || t[j] == 93 {
            assert(items_from(t@, i as int) =~= Seq::<(int, int)>::empty());
            assert(item_spans(acc@) + Seq::<(int, int)>::empty() =~= item_spans(acc@));
            return acc;
        }
        let e = value_end_at(t, j);
        let k = skip_ws_at(t, e);
        let ghost before = acc@;
        acc.push((j, e));
        assert(item_spans(acc@) =~= item_spans(before).push((j as int, e as int)));
        if k < t.len() && t[k] == 44 {
            assert(items_from(t@, i as int) == seq![(j as int, e as int)] + items_from(t@, k + 1));
            assert(item_spans(before) + (seq![(j as int, e as int)] + items_from(t@, k + 1))
                =~= item_spans(acc@) + items_from(t@, k + 1));
            i = k + 1;
        } else {
            assert(items_from(t@, i as int) == seq![(j as int, e as int)]);
            assert(item_spans(before) + seq![(j as int, e as int)] =~= item_spans(acc@));
            return acc;
        }
    }
}

/// The key and value spans of the members of the object whose contents
/// start at `start`.
pub fn object_members(t: &[u8], start: usize) -> (r: Vec<(usize, usize, usize, usize)>)
    requires
        start <= t@.len(),
    ensures
        member_spans(r@) == members_from(t@, start as int),
        forall|k: int| 0 <= k < r@.len() ==> {
            &&& (#[trigger] r@[k]).0 <= r@[k].1 <= t@.len()
            &&& r@[k].2 <= r@[k].3 <= t@.len()
        },
{
    let mut acc: Vec<(usize, usize, usize, usize)> = Vec::new();
    let mut i = start;
    loop
        invariant
            i <= t@.len(),
            members_from(t@, start as int) == member_spans(acc@) + members_from(t@, i as int),
            forall|k: int| 0 <= k < acc@.len() ==> {
                &&& (#[trigger] acc@[k]).0 <= acc@[k].1 <= t@.len()
                &&& acc@[k].2 <= acc@[k].3 <= t@.len()
            },
        decreases t@.len() - i,
    {
        let j = skip_ws_at(t, i);
        if j >= t.len() || t[j] != 34 {
            assert(members_from(t@, i as int) =~= Seq::<(int, int, int, int)>::empty());
            assert(member_spans(acc@) + Seq::<(int, int, int, int)>::empty() =~= member_spans(acc@));
            return acc;
        }
        let ke = string_end_at(t, j + 1);
        let c = skip_ws_at(t, ke);
        if c >= t.len() || t[c] != 58 {
            assert(members_from(t@, i as int) =~= Seq::<(int, int, int, int)>::empty());
            assert(member_spans(acc@) + Seq::<(int, int, int, int)>::empty() =~= member_spans(acc@));
            return acc;
        }
        let v = skip_ws_at(t, c + 1);
        let ve = value_end_at(t, v);
        let k = skip_ws_at(t, ve);
        let ghost before = acc@;
        let ghost m = (j as int, ke as int, v as int, ve as int);
        acc.push((j, ke, v, ve));
        assert(member_spans(acc@) =~= member_spans(before).push(m));
        if k < t.len() && t[k] == 44 {
            assert(members_from(t@, i as int) == seq![m] + members_from(t@, k + 1));
            assert(member_spans(before) + (seq![m] + members_from(t@, k + 1))
                =~= member_spans(acc@) + members_from(t@, k + 1));
            i = k + 1;
        } else {
            assert(members_from(t@, i as int) == seq![m]);
            assert(member_spans(before) + seq![m] =~= member_spans(acc@));
            return acc;
        }
    }
}

/// Law: skipping whitespace passes over exactly the JSON whitespace bytes
/// (space, tab, line feed, carriage return) and stops at the first other
/// byte or at the end of the text.
pub proof fn law_skip_ws_skips_json_whitespace(t: Seq<u8>, i: int)
    requires
        0 <= i <= t.len(),
    ensures
        i <= skip_ws(t, i) <= t.len(),
        forall|k: int| i <= k < skip_ws(t, i) ==> (#[trigger] t[k] == 32 || t[k] == 9 || t[k] == 10 || t[k] == 13),
        skip_ws(t, i) < t.len() ==> !(t[skip_ws(t, i)] == 32 || t[skip_ws(t, i)] == 9 || t[skip_ws(t, i)] == 10
            || t[skip_ws(t, i)] == 13),
    decreases t.len() - i,
{
    if i < t.len() && is_ws(t[i]) {
        law_skip_ws_skips_json_whitespace(t, i + 1);
    }
}

/// Law: a number or literal runs up to the first JSON whitespace byte,
/// `,`, `]` or `}`, or to the end of the text.
pub proof fn law_scalar_ends_at_delimiter(t: Seq<u8>, i: int)
    requires
        0 <= i <= t.len(),
    ensures
        i <= scalar_end(t, i) <= t.len(),
        forall|k: int| i <= k < scalar_end(t, i) ==> !(#[trigger] t[k] == 32 || t[k] == 9 || t[k] == 10 || t[k] == 13
            || t[k] == 44 || t[k] == 93 || t[k] == 125),
        scalar_end(t, i) < t.len() ==> ({
            let b = t[scalar_end(t, i)];
            b == 32 || b == 9 || b == 10 || b == 13 || b == 44 || b == 93 || b == 125
        }),
    decreases t.len() - i,
{
    if i < t.len() && !ends_scalar(t[i]) {
        law_scalar_ends_at_delimiter(t, i + 1);
    }
}

/// Law: every element of an array starts at a byte that is not JSON
/// whitespace, after any whitespace that follows the `[` or the `,`.
pub proof fn law_items_start_past_whitespace(t: Seq<u8>, i: int)
    requires
        0 <= i <= t.len(),
    ensures
        forall|x: int| 0 <= x < items_from(t, i).len() ==> {
            let s = (#[trigger] items_from(t, i)[x]).0;
            &&& i <= s < t.len()
            &&& !(t[s] == 32 || t[s] == 9 || t[s] == 10 || t[s] == 13)
        },
    decreases t.len() - i,
{
    let j = skip_ws(t, i);
    law_skip_ws_skips_json_whitespace(t, i);
    if 0 <= j < t.len() && t[j] != 93 {
        let e = value_end(t, j);
        let k = skip_ws(t, e);
        if 0 <= k < t.len() && t[k] == 44 && k + 1 > i {
            law_items_start_past_whitespace(t, k + 1);
            let rest = items_from(t, k + 1);
            assert forall|x: int| 0 <= x < items_from(t, i).len() implies {
                let s = (#[trigger] items_from(t, i)[x]).0;
                &&& i <= s < t.len()
                &&& !(t[s] == 32 || t[s] == 9 || t[s] == 10 || t[s] == 13)
            } by {
                if x > 0 {
                    assert(items_from(t, i)[x] == rest[x - 1]);
                }
            }
        }
    }
}

/// Law: in every member of an object, the key starts with a quote right
/// after any whitespace, only whitespace and one `:` lie between the key
/// and the value, and the value starts at a byte that is not JSON
/// whitespace. Whitespace around the `:` thus never becomes part of a value.
pub proof fn law_member_values_start_past_whitespace(t: Seq<u8>, i: int)
    requires
        0 <= i <= t.len(),
    ensures
        forall|x: int| 0 <= x < members_from(t, i).len() ==> {
            let m = #[trigger] members_from(t, i)[x];
            &&& i <= m.0 < m.1 <= m.2 <= t.len()
            &&& t[m.0] == 34
            &&& exists|c: int| m.1 <= c < m.2 && t[c] == 58
                && (forall|k: int| m.1 <= k < m.2 && k != c ==> (#[trigger] t[k] == 32 || t[k] == 9 || t[k] == 10 || t[k] == 13))
            &&& m.2 < t.len() ==> !(t[m.2] == 32 || t[m.2] == 9 || t[m.2] == 10 || t[m.2] == 13)
        },
    decreases t.len() - i,
{
    let j = skip_ws(t, i);
    law_skip_ws_skips_json_whitespace(t, i);
    if 0 <= j < t.len() && t[j] == 34 {
        let ke = string_end(t, j + 1);
        lemma_string_end(t, j + 1);
        let c = skip_ws(t, ke);
        law_skip_ws_skips_json_whitespace(t, ke);
        if 0 <= c < t.len() && t[c] == 58 {
            let v = skip_ws(t, c + 1);
            law_skip_ws_skips_json_whitespace(t, c + 1);
            let ve = value_end(t, v);
            let k = skip_ws(t, ve);
            let m = (j, ke, v, ve);
            assert(m.1 <= c < m.2 && t[c] == 58
                && (forall|q: int| m.1 <= q < m.2 && q != c ==> (#[trigger] t[q] == 32 || t[q] == 9 || t[q] == 10 || t[q] == 13)));
            if 0 <= k < t.len() && t[k] == 44 && k + 1 > i {
                law_member_values_start_past_whitespace(t, k + 1);
                let rest = members_from(t, k + 1);
                assert forall|x: int| 0 <= x < members_from(t, i).len() implies {
                    let m = #[trigger] members_from(t, i)[x];
                    &&& i <= m.0 < m.1 <= m.2 <= t.len()
                    &&& t[m.0] == 34
                    &&& exists|c: int| m.1 <= c < m.2 && t[c] == 58
                        && (forall|k: int| m.1 <= k < m.2 && k != c ==> (#[trigger] t[k] == 32 || t[k] == 9 || t[k] == 10 || t[k] == 13))
                    &&& m.2 < t.len() ==> !(t[m.2] == 32 || t[m.2] == 9 || t[m.2] == 10 || t[m.2] == 13)
                } by {
                    if x > 0 {
                        assert(members_from(t, i)[x] == rest[x - 1]);
                    } else {
                        assert(members_from(t, i)[x] == m);
                    }
                }
            } else {
                assert(members_from(t, i) == seq![m]);
                assert(members_from(t, i)[0] == m);
            }
        }
    }
}

/// Law: consecutive elements of an array are separated by one `,` with
/// only JSON whitespace around it.
pub proof fn law_items_separated_by_commas(t: Seq<u8>, i: int)
    requires
        0 <= i <= t.len(),
    ensures
        forall|x: int| 0 <= x && x + 1 < items_from(t, i).len() ==> exists|c: int|
            (#[trigger] items_from(t, i)[x]).1 <= c < items_from(t, i)[x + 1].0 && t[c] == 44
            && forall|q: int| items_from(t, i)[x].1 <= q < items_from(t, i)[x + 1].0 && q != c
                ==> (#[trigger] t[q] == 32 || t[q] == 9 || t[q] == 10 || t[q] == 13),
    decreases t.len() - i,
{
    let j = skip_ws(t, i);
    if 0 <= j < t.len() && t[j] != 93 {
        let e = value_end(t, j);
        let k = skip_ws(t, e);
        if 0 <= k < t.len() && t[k] == 44 && k + 1 > i {
            law_items_separated_by_commas(t, k + 1);
            let rest = items_from(t, k + 1);
            let all = items_from(t, i);
            assert(all == seq![(j, e)] + rest);
            assert forall|x: int| 0 <= x && x + 1 < all.len() implies exists|c: int|
                (#[trigger] all[x]).1 <= c < all[x + 1].0 && t[c] == 44
                && forall|q: int| all[x].1 <= q < all[x + 1].0 && q != c
                    ==> (#[trigger] t[q] == 32 || t[q] == 9 || t[q] == 10 || t[q] == 13) by {
                if x > 0 {
                    assert(all[x] == rest[x - 1] && all[x + 1] == rest[x]);
                } else {
                    let j2 = skip_ws(t, k + 1);
                    assert(all[0] == (j, e));
                    assert(rest.len() > 0);
                    assert(rest[0].0 == j2);
                    assert(all[1] == rest[0]);
                    if e <= t.len() {
                        law_skip_ws_skips_json_whitespace(t, e);
                    } else {
                        assert(skip_ws(t, e) == e);
                    }
                    law_skip_ws_skips_json_whitespace(t, k + 1);
                    assert(e <= k);
                    assert(all[0].1 <= k < all[1].0 && t[k] == 44);
                }
            }
        }
    }
}

/// Law: consecutive members of an object are separated by one `,` with
/// only JSON whitespace around it.
pub proof fn law_members_separated_by_commas(t: Seq<u8>, i: int)
    requires
        0 <= i <= t.len(),
    ensures
        forall|x: int| 0 <= x && x + 1 < members_from(t, i).len() ==> exists|c: int|
            (#[trigger] members_from(t, i)[x]).3 <= c < members_from(t, i)[x + 1].0 && t[c] == 44
            && forall|q: int| members_from(t, i)[x].3 <= q < members_from(t, i)[x + 1].0 && q != c
                ==> (#[trigger] t[q] == 32 || t[q] == 9 || t[q] == 10 || t[q] == 13),
    decreases t.len() - i,
{
    let j = skip_ws(t, i);
    if 0 <= j < t.len() && t[j] == 34 {
        let ke = string_end(t, j + 1);
        let c0 = skip_ws(t, ke);
        if 0 <= c0 < t.len() && t[c0] == 58 {
            let v = skip_ws(t, c0 + 1);
            let ve = value_end(t, v);
            let k = skip_ws(t, ve);
            if 0 <= k < t.len() && t[k] == 44 && k + 1 > i {
                law_members_separated_by_commas(t, k + 1);
                let rest = members_from(t, k + 1);
                let all = members_from(t, i);
                assert(all == seq![(j, ke, v, ve)] + rest);
                assert forall|x: int| 0 <= x && x + 1 < all.len() implies exists|c: int|
                    (#[trigger] all[x]).3 <= c < all[x + 1].0 && t[c] == 44
                    && forall|q: int| all[x].3 <= q < all[x + 1].0 && q != c
                        ==> (#[trigger] t[q] == 32 || t[q] == 9 || t[q] == 10 || t[q] == 13) by {
                    if x > 0 {
                        assert(all[x] == rest[x - 1] && all[x + 1] == rest[x]);
                    } else {
                        let j2 = skip_ws(t, k + 1);
                        assert(all[0] == (j, ke, v, ve));
                        assert(rest.len() > 0);
                        assert(rest[0].0 == j2);
                        assert(all[1] == rest[0]);
                        if ve <= t.len() {
                            law_skip_ws_skips_json_whitespace(t, ve);
                        } else {
                            assert(skip_ws(t, ve) == ve);
                        }
                        law_skip_ws_skips_json_whitespace(t, k + 1);
                        assert(ve <= k);
                        assert(all[0].3 <= k < all[1].0 && t[k] == 44);
                    }
                }
            }
        }
    }
}

} // verus!
