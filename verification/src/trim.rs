//! Unicode-whitespace trimming and ASCII case handling over UTF-8 bytes.
use vstd::prelude::*;

verus! {

/// ASCII whitespace as `char::is_whitespace` counts it (`\t \n \x0B \x0C \r` and space).
pub open spec fn is_ascii_ws(b: u8) -> bool {
    (9 <= b <= 13) || b == 32
}

/// Byte length of the whitespace character that starts `b` (0 when none).
///
/// Covers every `char::is_whitespace` code point: ASCII whitespace, U+0085,
/// U+00A0, U+1680, U+2000–U+200A, U+2028, U+2029, U+202F, U+205F, U+3000.
pub open spec fn lead_ws_len(b: Seq<u8>) -> int {
    if b.len() >= 1 && is_ascii_ws(b[0]) {
        1
    } else if b.len() >= 2 && b[0] == 0xC2 && (b[1] == 0x85 || b[1] == 0xA0) {
        2
    } else if b.len() >= 3 && ws3(b[0], b[1], b[2]) {
        3
    } else {
        0
    }
}

/// Three-byte UTF-8 encodings of whitespace characters.
pub open spec fn ws3(a: u8, b: u8, c: u8) -> bool {
    ||| (a == 0xE1 && b == 0x9A && c == 0x80)
    ||| (a == 0xE2 && b == 0x80 && (0x80 <= c <= 0x8A || c == 0xA8 || c == 0xA9 || c == 0xAF))
    ||| (a == 0xE2 && b == 0x81 && c == 0x9F)
    ||| (a == 0xE3 && b == 0x80 && c == 0x80)
}

/// Byte length of the whitespace character that ends `b` (0 when none).
pub open spec fn trail_ws_len(b: Seq<u8>) -> int {
    let n = b.len() as int;
    if n >= 1 && is_ascii_ws(b[n - 1]) {
        1
    } else if n >= 2 && b[n - 2] == 0xC2 && (b[n - 1] == 0x85 || b[n - 1] == 0xA0) {
        2
    } else if n >= 3 && ws3(b[n - 3], b[n - 2], b[n - 1]) {
        3
    } else {
        0
    }
}

/// `str::trim_start` on UTF-8 bytes.
pub open spec fn trim_start_spec(b: Seq<u8>) -> Seq<u8>
    decreases b.len(),
{
    let k = lead_ws_len(b);
    if k == 0 {
        b
    } else {
        trim_start_spec(b.subrange(k, b.len() as int))
    }
}

/// `str::trim_end` on UTF-8 bytes.
pub open spec fn trim_end_spec(b: Seq<u8>) -> Seq<u8>
    decreases b.len(),
{
    let k = trail_ws_len(b);
    if k == 0 {
        b
    } else {
        trim_end_spec(b.subrange(0, b.len() - k))
    }
}

/// `str::trim` on UTF-8 bytes.
pub open spec fn trim_spec(b: Seq<u8>) -> Seq<u8> {
    trim_end_spec(trim_start_spec(b))
}

/// Byte length of the whitespace character at `b[start..end]`'s start (0 when none).
pub fn lead_ws(b: &[u8], start: usize, end: usize) -> (k: usize)
    requires
        start <= end <= b@.len(),
    ensures
        k == lead_ws_len(b@.subrange(start as int, end as int)),
{
    let ghost s = b@.subrange(start as int, end as int);
    let n = end - start;
    if n >= 1 && ((9 <= b[start] && b[start] <= 13) || b[start] == 32) {
        1
    } else if n >= 2 && b[start] == 0xC2 && (b[start + 1] == 0x85 || b[start + 1] == 0xA0) {
        2
    } else if n >= 3 && ws3_exec(b[start], b[start + 1], b[start + 2]) {
        3
    } else {
        0
    }
}

fn trail_ws(b: &[u8], start: usize, end: usize) -> (k: usize)
    requires
        start <= end <= b@.len(),
    ensures
        k == trail_ws_len(b@.subrange(start as int, end as int)),
{
    let n = end - start;
    if n >= 1 && ((9 <= b[end - 1] && b[end - 1] <= 13) || b[end - 1] == 32) {
        1
    } else if n >= 2 && b[end - 2] == 0xC2 && (b[end - 1] == 0x85 || b[end - 1] == 0xA0) {
        2
    } else if n >= 3 && ws3_exec(b[end - 3], b[end - 2], b[end - 1]) {
        3
    } else {
        0
    }
}

fn ws3_exec(a: u8, b: u8, c: u8) -> (r: bool)
    ensures
        r == ws3(a, b, c),
{
    (a == 0xE1 && b == 0x9A && c == 0x80) || (a == 0xE2 && b == 0x80 && ((0x80 <= c && c <= 0x8A)
        || c == 0xA8 || c == 0xA9 || c == 0xAF)) || (a == 0xE2 && b == 0x81 && c == 0x9F) || (a
        == 0xE3 && b == 0x80 && c == 0x80)
}

/// Bounds of `b[start..end]` after `str::trim_start`.
pub fn trim_start_from(b: &[u8], start: usize, end: usize) -> (r: usize)
    requires
        start <= end <= b@.len(),
    ensures
        start <= r <= end,
        b@.subrange(r as int, end as int) == trim_start_spec(b@.subrange(start as int, end as int)),
{
    let mut i = start;
    while i < end
        invariant
            start <= i <= end,
            end <= b@.len(),
            trim_start_spec(b@.subrange(i as int, end as int)) == trim_start_spec(
                b@.subrange(start as int, end as int),
            ),
        decreases end - i,
    {
        let k = lead_ws(b, i, end);
        if k == 0 {
            return i;
        }
        assert(b@.subrange(i as int, end as int).subrange(k as int, (end - i) as int) =~= b@.subrange(
            i + k,
            end as int,
        ));
        i = i + k;
    }
    i
}

/// Bounds of `b[start..end]` after `str::trim_end`.
pub fn trim_end_to(b: &[u8], start: usize, end: usize) -> (r: usize)
    requires
        start <= end <= b@.len(),
    ensures
        start <= r <= end,
        b@.subrange(start as int, r as int) == trim_end_spec(b@.subrange(start as int, end as int)),
{
    let mut j = end;
    while j > start
        invariant
            start <= j <= end,
            end <= b@.len(),
            trim_end_spec(b@.subrange(start as int, j as int)) == trim_end_spec(
                b@.subrange(start as int, end as int),
            ),
        decreases j - start,
    {
        let k = trail_ws(b, start, j);
        if k == 0 {
            return j;
        }
        assert(b@.subrange(start as int, j as int).subrange(0, (j - start - k) as int) =~= b@.subrange(
            start as int,
            j - k,
        ));
        j = j - k;
    }
    j
}

/// Bounds `(s, e)` such that `b[s..e]` is `str::trim` of `b[start..end]`.
pub fn trim_range(b: &[u8], start: usize, end: usize) -> (r: (usize, usize))
    requires
        start <= end <= b@.len(),
    ensures
        start <= r.0 <= r.1 <= end,
        b@.subrange(r.0 as int, r.1 as int) == trim_spec(b@.subrange(start as int, end as int)),
{
    let s = trim_start_from(b, start, end);
    let e = trim_end_to(b, s, end);
    (s, e)
}

/// ASCII lower-case of one byte.
pub open spec fn lower_byte(b: u8) -> u8 {
    if 65 <= b <= 90 {
        (b + 32) as u8
    } else {
        b
    }
}

/// ASCII upper-case of one byte.
pub open spec fn upper_byte(b: u8) -> u8 {
    if 97 <= b <= 122 {
        (b - 32) as u8
    } else {
        b
    }
}

pub fn to_lower(b: u8) -> (r: u8)
    ensures
        r == lower_byte(b),
{
    if 65 <= b && b <= 90 {
        b + 32
    } else {
        b
    }
}

pub fn to_upper(b: u8) -> (r: u8)
    ensures
        r == upper_byte(b),
{
    if 97 <= b && b <= 122 {
        b - 32
    } else {
        b
    }
}

/// `a` and `b` are equal ignoring ASCII case.
pub open spec fn eq_ignore_case(a: Seq<u8>, b: Seq<u8>) -> bool {
    a.len() == b.len() && forall|i: int| 0 <= i < a.len() ==> lower_byte(#[trigger] a[i]) == lower_byte(b[i])
}

/// `b` occurs in `a` at position `i`.
pub open spec fn occurs_at(a: Seq<u8>, b: Seq<u8>, i: int) -> bool {
    0 <= i && i + b.len() <= a.len() && a.subrange(i, i + b.len()) == b
}

/// `b` occurs in `a` at position `i`, ignoring ASCII case.
pub open spec fn occurs_at_ignore_case(a: Seq<u8>, b: Seq<u8>, i: int) -> bool {
    0 <= i && i + b.len() <= a.len() && eq_ignore_case(a.subrange(i, i + b.len()), b)
}

/// `b` occurs somewhere in `a`.
pub open spec fn contains_seq(a: Seq<u8>, b: Seq<u8>) -> bool {
    exists|i: int| occurs_at(a, b, i)
}

/// `b` occurs somewhere in `a`, ignoring ASCII case.
pub open spec fn contains_ignore_case(a: Seq<u8>, b: Seq<u8>) -> bool {
    exists|i: int| occurs_at_ignore_case(a, b, i)
}

/// Compare `a[at..at + b.len()]` with `b` ignoring ASCII case.
pub fn matches_at_ignore_case(a: &[u8], at: usize, b: &[u8]) -> (r: bool)
    requires
        at <= a@.len(),
    ensures
        r == occurs_at_ignore_case(a@, b@, at as int),
{
    if b.len() > a.len() - at {
        return false;
    }
    let mut i: usize = 0;
    assert(a@.len() == a.len());
    while i < b.len()
        invariant
            i <= b@.len(),
            at + b@.len() <= a@.len(),
            a@.len() <= usize::MAX,
            forall|j: int| 0 <= j < i ==> lower_byte(#[trigger] a@[at + j]) == lower_byte(b@[j]),
        decreases b@.len() - i,
    {
        if to_lower(a[at + i]) != to_lower(b[i]) {
            assert(a@.subrange(at as int, at + b@.len())[i as int] == a@[at + i]);
            return false;
        }
        i = i + 1;
    }
    assert forall|j: int| 0 <= j < b@.len() implies lower_byte(
        #[trigger] a@.subrange(at as int, at + b@.len())[j],
    ) == lower_byte(b@[j]) by {
        assert(a@.subrange(at as int, at + b@.len())[j] == a@[at + j]);
    }
    true
}

/// Compare `a[at..at + b.len()]` with `b` exactly.
pub fn matches_at(a: &[u8], at: usize, b: &[u8]) -> (r: bool)
    requires
        at <= a@.len(),
    ensures
        r == occurs_at(a@, b@, at as int),
{
    if b.len() > a.len() - at {
        return false;
    }
    let mut i: usize = 0;
    assert(a@.len() == a.len());
    while i < b.len()
        invariant
            i <= b@.len(),
            at + b@.len() <= a@.len(),
            a@.len() <= usize::MAX,
            forall|j: int| 0 <= j < i ==> #[trigger] a@[at + j] == b@[j],
        decreases b@.len() - i,
    {
        if a[at + i] != b[i] {
            assert(a@.subrange(at as int, at + b@.len())[i as int] == a@[at + i]);
            return false;
        }
        i = i + 1;
    }
    assert forall|j: int| 0 <= j < b@.len() implies #[trigger] a@.subrange(at as int, at + b@.len())[j] == b@[j] by {
        assert(a@.subrange(at as int, at + b@.len())[j] == a@[at + j]);
    }
    assert(a@.subrange(at as int, at + b@.len()) =~= b@);
    true
}

/// First position at or after `from` where `b` occurs in `a`, ignoring ASCII case.
pub open spec fn first_ci(a: Seq<u8>, b: Seq<u8>, from: int) -> Option<int>
    decreases a.len() + 1 - from,
{
    if from + b.len() > a.len() {
        None
    } else if occurs_at_ignore_case(a, b, from) {
        Some(from)
    } else {
        first_ci(a, b, from + 1)
    }
}

/// First position at or after `from` where `b` occurs in `a`.
pub open spec fn first_occurrence(a: Seq<u8>, b: Seq<u8>, from: int) -> Option<int>
    decreases a.len() + 1 - from,
{
    if from + b.len() > a.len() {
        None
    } else if occurs_at(a, b, from) {
        Some(from)
    } else {
        first_occurrence(a, b, from + 1)
    }
}

/// First index at or after `from` holding byte `c`.
pub open spec fn first_byte(a: Seq<u8>, c: u8, from: int) -> Option<int>
    decreases a.len() + 1 - from,
{
    if from >= a.len() {
        None
    } else if from >= 0 && a[from] == c {
        Some(from)
    } else {
        first_byte(a, c, from + 1)
    }
}

/// First position at or after `from` where `b` occurs in `a`, ignoring ASCII case.
pub fn find_ignore_case(a: &[u8], from: usize, b: &[u8]) -> (r: Option<usize>)
    requires
        from <= a@.len(),
    ensures
        r matches Some(i) ==> from <= i && occurs_at_ignore_case(a@, b@, i as int)
            && forall|j: int| from <= j < i ==> !occurs_at_ignore_case(a@, b@, j),
        r is None ==> forall|j: int| from <= j ==> !occurs_at_ignore_case(a@, b@, j),
        r matches Some(i) ==> first_ci(a@, b@, from as int) == Some(i as int),
        r is None ==> first_ci(a@, b@, from as int) is None,
{
    let mut i = from;
    while i < a.len()
        invariant
            from <= i <= a@.len(),
            forall|j: int| from <= j < i ==> !occurs_at_ignore_case(a@, b@, j),
            first_ci(a@, b@, from as int) == first_ci(a@, b@, i as int),
        decreases a@.len() - i,
    {
        if matches_at_ignore_case(a, i, b) {
            return Some(i);
        }
        i = i + 1;
    }
    if matches_at_ignore_case(a, i, b) {
        return Some(i);
    }
    None
}

/// First position at or after `from` where `b` occurs in `a`.
pub fn find_seq(a: &[u8], from: usize, b: &[u8]) -> (r: Option<usize>)
    requires
        from <= a@.len(),
    ensures
        r matches Some(i) ==> from <= i && occurs_at(a@, b@, i as int)
            && forall|j: int| from <= j < i ==> !occurs_at(a@, b@, j),
        r is None ==> forall|j: int| from <= j ==> !occurs_at(a@, b@, j),
        r matches Some(i) ==> first_occurrence(a@, b@, from as int) == Some(i as int),
        r is None ==> first_occurrence(a@, b@, from as int) is None,
{
    let mut i = from;
    while i < a.len()
        invariant
            from <= i <= a@.len(),
            forall|j: int| from <= j < i ==> !occurs_at(a@, b@, j),
            first_occurrence(a@, b@, from as int) == first_occurrence(a@, b@, i as int),
        decreases a@.len() - i,
    {
        if matches_at(a, i, b) {
            return Some(i);
        }
        i = i + 1;
    }
    if matches_at(a, i, b) {
        return Some(i);
    }
    assert(first_occurrence(a@, b@, i + 1) is None);
    None
}

/// First index at or after `from` holding byte `c`.
pub fn find_byte(a: &[u8], from: usize, c: u8) -> (r: Option<usize>)
    requires
        from <= a@.len(),
    ensures
        r matches Some(i) ==> from <= i < a@.len() && a@[i as int] == c
            && forall|j: int| from <= j < i ==> a@[j] != c,
        r is None ==> forall|j: int| from <= j < a@.len() ==> a@[j] != c,
        r matches Some(i) ==> first_byte(a@, c, from as int) == Some(i as int),
        r is None ==> first_byte(a@, c, from as int) is None,
{
    let mut i = from;
    while i < a.len()
        invariant
            from <= i <= a@.len(),
            forall|j: int| from <= j < i ==> a@[j] != c,
            first_byte(a@, c, from as int) == first_byte(a@, c, i as int),
        decreases a@.len() - i,
    {
        if a[i] == c {
            return Some(i);
        }
        i = i + 1;
    }
    None
}

/// A match found by `first_ci` lies at or after `from`, inside `a`.
pub proof fn lemma_first_ci_bounds(a: Seq<u8>, b: Seq<u8>, from: int)
    ensures
        first_ci(a, b, from) matches Some(i) ==> from <= i && i + b.len() <= a.len()
            && occurs_at_ignore_case(a, b, i),
    decreases a.len() + 1 - from,
{
    if from + b.len() <= a.len() && !occurs_at_ignore_case(a, b, from) {
        lemma_first_ci_bounds(a, b, from + 1);
    }
}

/// A byte found by `first_byte` lies at or after `from`, inside `a`, and is `c`.
pub proof fn lemma_first_byte_bounds(a: Seq<u8>, c: u8, from: int)
    ensures
        first_byte(a, c, from) matches Some(i) ==> from <= i < a.len() && 0 <= i && a[i] == c,
    decreases a.len() + 1 - from,
{
    if from < a.len() && !(from >= 0 && a[from] == c) {
        lemma_first_byte_bounds(a, c, from + 1);
    }
}

/// First index of byte `c` in `b[from..to]`, as an index of `b`.
pub fn find_byte_in(b: &[u8], from: usize, to: usize, c: u8) -> (r: Option<usize>)
    requires
        from <= to <= b@.len(),
    ensures
        r matches Some(i) ==> first_byte(b@.subrange(from as int, to as int), c, 0) == Some(i - from),
        r is None ==> first_byte(b@.subrange(from as int, to as int), c, 0) is None,
        r matches Some(i) ==> from <= i < to && b@[i as int] == c,
{
    let ghost t = b@.subrange(from as int, to as int);
    let mut i = from;
    while i < to
        invariant
            from <= i <= to <= b@.len(),
            t == b@.subrange(from as int, to as int),
            first_byte(t, c, 0) == first_byte(t, c, i - from),
        decreases to - i,
    {
        assert(t[i - from] == b@[i as int]);
        if b[i] == c {
            return Some(i);
        }
        i = i + 1;
    }
    None
}

/// Index of the first whitespace character in `t` at or after `k` (`t.len()` when none).
pub open spec fn first_ws(t: Seq<u8>, k: int) -> int
    decreases t.len() - k,
{
    if k < 0 || k >= t.len() {
        t.len() as int
    } else if lead_ws_len(t.subrange(k, t.len() as int)) > 0 {
        k
    } else {
        first_ws(t, k + 1)
    }
}

/// First whitespace character in `b[from..to]`, as an index of `b` (`to` when none).
pub fn find_ws_in(b: &[u8], from: usize, to: usize) -> (r: usize)
    requires
        from <= to <= b@.len(),
    ensures
        r == from + first_ws(b@.subrange(from as int, to as int), 0),
        from <= r <= to,
        r < to ==> lead_ws_len(b@.subrange(r as int, to as int)) > 0,
{
    let ghost t = b@.subrange(from as int, to as int);
    let mut i = from;
    while i < to
        invariant
            from <= i <= to <= b@.len(),
            t == b@.subrange(from as int, to as int),
            first_ws(t, 0) == first_ws(t, i - from),
        decreases to - i,
    {
        assert(t.subrange(i - from, t.len() as int) =~= b@.subrange(i as int, to as int));
        if lead_ws(b, i, to) > 0 {
            return i;
        }
        i = i + 1;
    }
    i
}

} // verus!
