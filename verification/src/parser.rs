use vstd::prelude::*;

verus! {

/// Characters of a header field examined at most (digits and their delimiter).
pub const FIELD_WINDOW: usize = 16;

/// Characters of a body examined per call.
pub const BODY_WINDOW: usize = 192;

/// Bytes a body window holds at most (three characters per byte).
pub const BODY_BYTES: usize = 64;

/// Whether `c` is an ASCII hexadecimal digit.
pub open spec fn is_hex(c: u8) -> bool {
    (48 <= c <= 57) || (65 <= c <= 70) || (97 <= c <= 102)
}

/// Value of an ASCII hexadecimal digit.
pub open spec fn hex_digit(c: u8) -> int {
    if 48 <= c <= 57 {
        c - 48
    } else if 65 <= c <= 70 {
        c - 55
    } else {
        c - 87
    }
}

fn is_hex_exec(c: u8) -> (r: bool)
    ensures
        r == is_hex(c),
{
    (48 <= c && c <= 57) || (65 <= c && c <= 70) || (97 <= c && c <= 102)
}

fn hex_digit_exec(c: u8) -> (r: u8)
    requires
        is_hex(c),
    ensures
        r == hex_digit(c),
        r < 16,
{
    if 48 <= c && c <= 57 {
        c - 48
    } else if 65 <= c && c <= 70 {
        c - 55
    } else {
        c - 87
    }
}

/// Number of hexadecimal digits at the head of `s`, from `i`, within the
/// field window.
pub open spec fn leading_hex(s: Seq<u8>, i: int) -> int
    decreases FIELD_WINDOW - i,
{
    if 0 <= i < FIELD_WINDOW && i < s.len() && is_hex(s[i]) {
        leading_hex(s, i + 1)
    } else {
        i
    }
}

/// Value of the first `n` characters of `s` read as hexadecimal digits.
pub open spec fn hex_value(s: Seq<u8>, n: int) -> int
    decreases n,
{
    if n <= 0 {
        0
    } else {
        hex_value(s, n - 1) * 16 + hex_digit(s[n - 1])
    }
}

/// A header field: hexadecimal digits closed by a space, with the number
/// of digits; `None` where the digits are not closed by a space within the
/// window.
pub open spec fn hex_field(s: Seq<u8>) -> Option<(u64, usize)> {
    let n = leading_hex(s, 0);
    if n < FIELD_WINDOW && n < s.len() && s[n] == 0x20 {
        Some((hex_value(s, n) as u64, n as usize))
    } else {
        None
    }
}

/// Powers of sixteen.
pub open spec fn pow16(n: nat) -> nat
    decreases n,
{
    if n == 0 {
        1
    } else {
        16 * pow16((n - 1) as nat)
    }
}

pub(crate) proof fn lemma_pow16_bound(n: nat)
    requires
        n <= 15,
    ensures
        pow16(n) <= 0x1000_0000_0000_0000,
    decreases 15 - n,
{
    if n < 15 {
        lemma_pow16_bound(n + 1);
    } else {
        reveal_with_fuel(pow16, 16);
    }
}

proof fn lemma_leading_hex_ge(s: Seq<u8>, i: int)
    ensures
        leading_hex(s, i) >= i,
    decreases FIELD_WINDOW - i,
{
    if 0 <= i < FIELD_WINDOW && i < s.len() && is_hex(s[i]) {
        lemma_leading_hex_ge(s, i + 1);
    }
}

proof fn lemma_leading_hex(s: Seq<u8>, i: int)
    requires
        0 <= i <= leading_hex(s, 0),
    ensures
        leading_hex(s, 0) <= FIELD_WINDOW,
        leading_hex(s, 0) <= s.len() || leading_hex(s, 0) == 0,
        forall|j: int| 0 <= j < leading_hex(s, 0) ==> is_hex(#[trigger] s[j]),
{
    lemma_leading_hex_from(s, 0);
}

proof fn lemma_leading_hex_from(s: Seq<u8>, i: int)
    requires
        0 <= i,
        i <= FIELD_WINDOW,
        i <= s.len(),
        forall|j: int| 0 <= j < i ==> is_hex(#[trigger] s[j]),
    ensures
        i <= leading_hex(s, i) <= FIELD_WINDOW,
        leading_hex(s, i) <= s.len(),
        forall|j: int| 0 <= j < leading_hex(s, i) ==> is_hex(#[trigger] s[j]),
        leading_hex(s, i) < FIELD_WINDOW && leading_hex(s, i) < s.len() ==> !is_hex(
            s[leading_hex(s, i)],
        ),
    decreases FIELD_WINDOW - i,
{
    if i < FIELD_WINDOW && i < s.len() && is_hex(s[i]) {
        lemma_leading_hex_from(s, i + 1);
    }
}

/// The hexadecimal digits at the head of `src` (no more than the field
/// window holds) and their value.
pub fn hex_prefix(src: &[u8]) -> (r: (u64, usize))
    requires
        src@.len() >= FIELD_WINDOW,
    ensures
        r.1 == leading_hex(src@, 0),
        r.1 <= FIELD_WINDOW,
        r.0 == hex_value(src@, r.1 as int),
{
    proof {
        lemma_leading_hex_from(src@, 0);
    }
    let mut i: usize = 0;
    let mut value: u64 = 0;
    while i < FIELD_WINDOW && is_hex_exec(src[i])
        invariant
            src@.len() >= FIELD_WINDOW,
            i <= FIELD_WINDOW,
            i <= leading_hex(src@, 0),
            leading_hex(src@, 0) == leading_hex(src@, i as int),
            forall|j: int| 0 <= j < leading_hex(src@, 0) ==> is_hex(#[trigger] src@[j]),
            value == hex_value(src@, i as int),
            value < pow16(i as nat),
        decreases FIELD_WINDOW - i,
    {
        proof {
            lemma_pow16_bound(i as nat);
            lemma_leading_hex_ge(src@, i + 1);
        }
        let d = hex_digit_exec(src[i]);
        let ghost p = pow16(i as nat);
        assert(value * 16 + d < 16 * p) by (nonlinear_arith)
            requires
                value < p,
                d < 16,
        ;
        value = value * 16 + (d as u64);
        i = i + 1;
    }
    proof {
        if i < FIELD_WINDOW {
            lemma_leading_hex_ge(src@, i as int);
        }
    }
    (value, i)
}

/// Reads a hexadecimal header field: the digits up to the first space,
/// and how many there are.
pub fn parse_hex_single(src: &[u8]) -> (r: Option<(u64, usize)>)
    requires
        src@.len() >= FIELD_WINDOW,
    ensures
        r == hex_field(src@),
{
    let (value, i) = hex_prefix(src);
    if i < FIELD_WINDOW && src[i] == 0x20 {
        Some((value, i))
    } else {
        None
    }
}

/// Position of the first `c` (or of either of `c` and `d`) in the body
/// window of `s`; the window's size where there is none.
pub open spec fn first_of(s: Seq<u8>, c: u8, d: u8, i: int) -> int
    decreases BODY_WINDOW - i,
{
    if i < 0 || i >= BODY_WINDOW || i >= s.len() {
        BODY_WINDOW as int
    } else if s[i] == c || s[i] == d {
        i
    } else {
        first_of(s, c, d, i + 1)
    }
}

/// End of the line: the first newline in the window.
pub open spec fn line_end(s: Seq<u8>) -> int {
    first_of(s, 0x0a, 0x0a, 0)
}

/// End of the hexadecimal body: the first `|` or newline in the window.
pub open spec fn body_end(s: Seq<u8>) -> int {
    first_of(s, 0x7c, 0x0a, 0)
}

/// Character `j` of a body ending at `end`: blank past the end.
pub open spec fn body_char(s: Seq<u8>, end: int, j: int) -> u8 {
    if j < end {
        s[j]
    } else {
        0x20
    }
}

/// Column `k` of the body holds a byte: two hexadecimal digits.
pub open spec fn column_full(s: Seq<u8>, end: int, k: int) -> bool {
    is_hex(body_char(s, end, 3 * k)) && is_hex(body_char(s, end, 3 * k + 1))
}

/// Column `k` of the body is well formed: two hexadecimal digits or two
/// blanks, followed by a blank separator within the body.
pub open spec fn column_ok(s: Seq<u8>, end: int, k: int) -> bool {
    &&& column_full(s, end, k) || (body_char(s, end, 3 * k) == 0x20 && body_char(s, end, 3 * k + 1)
        == 0x20)
    &&& body_char(s, end, 3 * k + 2) == 0x20
}

/// Number of columns in a body ending at `end`.
pub open spec fn column_count(end: int) -> int {
    (end + 2) / 3
}

/// Number of full columns before the first blank one, from column `k`.
pub open spec fn full_run(s: Seq<u8>, end: int, k: int) -> int
    decreases column_count(end) - k,
{
    if 0 <= k < column_count(end) && column_full(s, end, k) {
        full_run(s, end, k + 1)
    } else {
        k
    }
}

/// The byte of a full column.
pub open spec fn column_byte(s: Seq<u8>, end: int, k: int) -> u8 {
    (hex_digit(body_char(s, end, 3 * k)) * 16 + hex_digit(body_char(s, end, 3 * k + 1))) as u8
}

/// Every column of a body ending at `end` is well formed.
pub open spec fn all_columns_ok(s: Seq<u8>, end: int) -> bool {
    forall|k: int| 0 <= k < column_count(end) ==> #[trigger] column_ok(s, end, k)
}

/// The result of reading a body line: `((line end, body end), bytes)`, or
/// `None` where a column is malformed. In the tail (after a `|` seen
/// earlier) nothing is read up to the end of the line.
pub open spec fn hex_body(is_in_tail: bool, s: Seq<u8>) -> Option<((usize, usize), usize)> {
    if is_in_tail {
        Some(((line_end(s) as usize, 0usize), 0usize))
    } else {
        let end = body_end(s);
        if all_columns_ok(s, end) {
            Some(((line_end(s) as usize, end as usize), full_run(s, end, 0) as usize))
        } else {
            None
        }
    }
}

proof fn lemma_first_of(s: Seq<u8>, c: u8, d: u8, i: int)
    requires
        0 <= i <= BODY_WINDOW,
        s.len() >= BODY_WINDOW,
    ensures
        i <= first_of(s, c, d, i) <= BODY_WINDOW,
        forall|j: int| i <= j < first_of(s, c, d, i) ==> s[j] != c && s[j] != d,
        first_of(s, c, d, i) < BODY_WINDOW ==> (s[first_of(s, c, d, i)] == c || s[first_of(
            s,
            c,
            d,
            i,
        )] == d),
    decreases BODY_WINDOW - i,
{
    if i < BODY_WINDOW && !(s[i] == c || s[i] == d) {
        lemma_first_of(s, c, d, i + 1);
    }
}

/// Finds the first `c` or `d` in the body window.
fn find_first(src: &[u8], c: u8, d: u8) -> (r: usize)
    requires
        src@.len() >= BODY_WINDOW,
    ensures
        r == first_of(src@, c, d, 0),
        r <= BODY_WINDOW,
{
    proof {
        lemma_first_of(src@, c, d, 0);
    }
    let mut i: usize = 0;
    while i < BODY_WINDOW
        invariant
            src@.len() >= BODY_WINDOW,
            i <= BODY_WINDOW,
            first_of(src@, c, d, 0) == first_of(src@, c, d, i as int),
        decreases BODY_WINDOW - i,
    {
        if src[i] == c || src[i] == d {
            return i;
        }
        i = i + 1;
    }
    i
}

proof fn lemma_full_run(s: Seq<u8>, end: int, k: int)
    requires
        0 <= k <= column_count(end),
        end >= 0,
        forall|j: int| 0 <= j < k ==> column_full(s, end, j),
    ensures
        k <= full_run(s, end, k) <= column_count(end),
        forall|j: int| 0 <= j < full_run(s, end, k) ==> #[trigger] column_full(s, end, j),
        full_run(s, end, k) < column_count(end) ==> !column_full(s, end, full_run(s, end, k)),
    decreases column_count(end) - k,
{
    if k < column_count(end) && column_full(s, end, k) {
        lemma_full_run(s, end, k + 1);
    }
}

/// Reads one window of a hexadecimal body line into `dst`:
/// `((line end, body end), bytes)`. Bytes are taken from the columns before
/// the first blank one.
pub fn parse_hex_body(is_in_tail: bool, src: &[u8], dst: &mut [u8]) -> (r: Option<
    ((usize, usize), usize),
>)
    requires
        src@.len() >= BODY_WINDOW,
        old(dst)@.len() >= BODY_BYTES,
    ensures
        r == hex_body(is_in_tail, src@),
        final(dst)@.len() == old(dst)@.len(),
        r matches Some(x) ==> x.1 <= BODY_BYTES,
        r matches Some(x) ==> forall|k: int|
            0 <= k < x.1 ==> final(dst)@[k] == column_byte(src@, body_end(src@), k),
{
    let eol = find_first(src, 0x0a, 0x0a);
    if is_in_tail {
        return Some(((eol, 0), 0));
    }
    let end = find_first(src, 0x7c, 0x0a);
    let ghost s = src@;
    let ghost e = end as int;
    let cols = (end + 2) / 3;
    assert(cols <= BODY_BYTES);
    // validate every column
    let mut k: usize = 0;
    while k < cols
        invariant
            s == src@,
            e == end,
            e == body_end(src@),
            !is_in_tail,
            end <= BODY_WINDOW,
            src@.len() >= BODY_WINDOW,
            cols == column_count(e),
            k <= cols,
            forall|j: int| 0 <= j < k ==> #[trigger] column_ok(s, e, j),
        decreases cols - k,
    {
        let a = if 3 * k < end {
            src[3 * k]
        } else {
            0x20
        };
        let b = if 3 * k + 1 < end {
            src[3 * k + 1]
        } else {
            0x20
        };
        let sep = if 3 * k + 2 < end {
            src[3 * k + 2]
        } else {
            0x20
        };
        assert(a == body_char(s, e, 3 * k));
        assert(b == body_char(s, e, 3 * k + 1));
        assert(sep == body_char(s, e, 3 * k + 2));
        let full = is_hex_exec(a) && is_hex_exec(b);
        if !((full || (a == 0x20 && b == 0x20)) && sep == 0x20) {
            assert(!column_ok(s, e, k as int));
            assert(!all_columns_ok(src@, body_end(src@)));
            return None;
        }
        k = k + 1;
    }
    // copy the bytes of the leading full columns
    proof {
        lemma_full_run(s, e, 0);
    }
    let mut n: usize = 0;
    while n < cols
        invariant
            s == src@,
            e == end,
            end <= BODY_WINDOW,
            src@.len() >= BODY_WINDOW,
            cols == column_count(e),
            cols <= BODY_BYTES,
            dst@.len() == old(dst)@.len(),
            dst@.len() >= BODY_BYTES,
            n <= full_run(s, e, 0),
            full_run(s, e, 0) <= cols,
            forall|j: int| 0 <= j < full_run(s, e, 0) ==> #[trigger] column_full(s, e, j),
            full_run(s, e, 0) < cols ==> !column_full(s, e, full_run(s, e, 0)),
            forall|j: int| 0 <= j < n ==> dst@[j] == column_byte(s, e, j),
        ensures
            n == full_run(s, e, 0),
            dst@.len() == old(dst)@.len(),
            forall|j: int| 0 <= j < n ==> dst@[j] == column_byte(s, e, j),
        decreases cols - n,
    {
        let a = if 3 * n < end {
            src[3 * n]
        } else {
            0x20
        };
        let b = if 3 * n + 1 < end {
            src[3 * n + 1]
        } else {
            0x20
        };
        assert(a == body_char(s, e, 3 * n));
        assert(b == body_char(s, e, 3 * n + 1));
        if !(is_hex_exec(a) && is_hex_exec(b)) {
            assert(!column_full(s, e, n as int));
            break;
        }
        assert(column_full(s, e, n as int));
        let hi = hex_digit_exec(a);
        let lo = hex_digit_exec(b);
        dst[n] = hi * 16 + lo;
        n = n + 1;
    }
    Some(((eol, end), n))
}

} // verus!
