//! Byte-level helpers shared by the request parser: ASCII classification,
//! searching, trimming and decimal parsing, each with a specification-level
//! mirror that the executable code is proved against.

use vstd::prelude::*;

verus! {

/// ASCII carriage return.
pub const CR: u8 = 13;

/// ASCII line feed.
pub const LF: u8 = 10;

/// ASCII space.
pub const SP: u8 = 32;

/// ASCII horizontal tab.
pub const HT: u8 = 9;

/// ASCII vertical tab.
pub const VT: u8 = 11;

/// ASCII form feed.
pub const FF: u8 = 12;

/// ASCII ':'.
pub const COLON: u8 = 58;

/// ASCII '/'.
pub const SLASH: u8 = 47;

/// ASCII '*'.
pub const STAR: u8 = 42;

/// ASCII ','.
pub const COMMA: u8 = 44;

/// ASCII ';'.
pub const SEMICOLON: u8 = 59;

/// ASCII '.'.
pub const DOT: u8 = 46;

/// ASCII '='.
pub const EQUALS: u8 = 61;

/// ASCII 'a'.
pub const LOWER_A: u8 = 97;

/// ASCII 'z'.
pub const LOWER_Z: u8 = 122;

/// ASCII 'q'.
pub const LOWER_Q: u8 = 113;

/// ASCII '0'.
pub const DIGIT_0: u8 = 48;

/// ASCII '9'.
pub const DIGIT_9: u8 = 57;

/// An ASCII lower-case letter mapped to upper case; any other byte unchanged.
pub open spec fn to_upper(b: u8) -> u8 {
    if LOWER_A <= b && b <= LOWER_Z {
        (b - 32) as u8
    } else {
        b
    }
}

/// A byte sequence with every ASCII lower-case letter mapped to upper case.
pub open spec fn upper_seq(s: Seq<u8>) -> Seq<u8> {
    s.map_values(|b: u8| to_upper(b))
}

/// The whitespace set of a trim: the ASCII control characters HT, LF, VT, FF,
/// CR, and the space.
pub open spec fn is_trim_ws(b: u8) -> bool {
    b == SP || b == HT || b == LF || b == VT || b == FF || b == CR
}

/// ASCII whitespace as the splitting of a value into tokens uses it:
/// HT, LF, FF, CR and the space.
pub open spec fn is_ascii_ws(b: u8) -> bool {
    b == SP || b == HT || b == LF || b == FF || b == CR
}

/// An ASCII decimal digit.
pub open spec fn is_digit(b: u8) -> bool {
    DIGIT_0 <= b && b <= DIGIT_9
}

/// Every byte of the sequence is an ASCII decimal digit.
pub open spec fn all_digits(s: Seq<u8>) -> bool {
    forall|i: int| 0 <= i < s.len() ==> is_digit(#[trigger] s[i])
}

/// The value of a sequence of ASCII decimal digits read as a base-10 number.
pub open spec fn dec_val(s: Seq<u8>) -> int
    decreases s.len(),
{
    if s.len() == 0 {
        0
    } else {
        dec_val(s.drop_last()) * 10 + (s.last() - DIGIT_0)
    }
}

/// The least index at or after `from` holding `b`, if any.
pub open spec fn find_byte_from(s: Seq<u8>, b: u8, from: int) -> Option<int>
    decreases s.len() - from when 0 <= from
{
    if from >= s.len() {
        None
    } else if s[from] == b {
        Some(from)
    } else {
        find_byte_from(s, b, from + 1)
    }
}

/// The least index at or after `from` where a CR LF pair starts, if any.
pub open spec fn find_crlf_from(s: Seq<u8>, from: int) -> Option<int>
    decreases s.len() - from when 0 <= from
{
    if from + 2 > s.len() {
        None
    } else if s[from] == CR && s[from + 1] == LF {
        Some(from)
    } else {
        find_crlf_from(s, from + 1)
    }
}

/// The sequence with its leading spaces removed.
pub open spec fn strip_leading_spaces(s: Seq<u8>) -> Seq<u8>
    decreases s.len(),
{
    if s.len() > 0 && s[0] == SP {
        strip_leading_spaces(s.drop_first())
    } else {
        s
    }
}

/// The sequence with leading spaces, 'q' letters and '=' signs removed, as a
/// quality-weight clause is reduced to its numeric part.
pub open spec fn strip_leading_q_markers(s: Seq<u8>) -> Seq<u8>
    decreases s.len(),
{
    if s.len() > 0 && (s[0] == SP || s[0] == LOWER_Q || s[0] == EQUALS) {
        strip_leading_q_markers(s.drop_first())
    } else {
        s
    }
}

/// The sequence with leading trim whitespace removed.
pub open spec fn trim_start(s: Seq<u8>) -> Seq<u8>
    decreases s.len(),
{
    if s.len() > 0 && is_trim_ws(s[0]) {
        trim_start(s.drop_first())
    } else {
        s
    }
}

/// The sequence with trailing trim whitespace removed.
pub open spec fn trim_end(s: Seq<u8>) -> Seq<u8>
    decreases s.len(),
{
    if s.len() > 0 && is_trim_ws(s.last()) {
        trim_end(s.drop_last())
    } else {
        s
    }
}

/// The sequence with whitespace removed from both ends.
pub open spec fn trim(s: Seq<u8>) -> Seq<u8> {
    trim_end(trim_start(s))
}

/// The least index at or after `from` holding ASCII whitespace, if any.
pub open spec fn find_ws_from(s: Seq<u8>, from: int) -> Option<int>
    decreases s.len() - from when 0 <= from
{
    if from >= s.len() {
        None
    } else if is_ascii_ws(s[from]) {
        Some(from)
    } else {
        find_ws_from(s, from + 1)
    }
}

/// The sequence holds a CR LF pair starting at `i`.
pub open spec fn crlf_at(s: Seq<u8>, i: int) -> bool {
    0 <= i && i + 2 <= s.len() && s[i] == CR && s[i + 1] == LF
}

/// `find_byte_from` returns the first occurrence: the index it returns holds
/// `b`, nothing before it (at or after `from`) does, and `None` means no
/// occurrence at all.
pub proof fn lemma_find_byte_from_spec(s: Seq<u8>, b: u8, from: int)
    requires
        0 <= from,
    ensures
        match find_byte_from(s, b, from) {
            Some(i) => from <= i < s.len() && s[i] == b && forall|j: int|
                from <= j < i ==> s[j] != b,
            None => forall|j: int| from <= j < s.len() ==> s[j] != b,
        },
    decreases s.len() - from,
{
    if from >= s.len() {
    } else if s[from] == b {
    } else {
        lemma_find_byte_from_spec(s, b, from + 1);
    }
}

/// `find_crlf_from` returns the first CR LF pair at or after `from`, and
/// `None` means there is no such pair.
pub proof fn lemma_find_crlf_from_spec(s: Seq<u8>, from: int)
    requires
        0 <= from,
    ensures
        match find_crlf_from(s, from) {
            Some(i) => from <= i && crlf_at(s, i) && forall|j: int|
                from <= j < i ==> !crlf_at(s, j),
            None => forall|j: int| from <= j ==> !crlf_at(s, j),
        },
    decreases s.len() - from,
{
    if from + 2 > s.len() {
    } else if s[from] == CR && s[from + 1] == LF {
    } else {
        lemma_find_crlf_from_spec(s, from + 1);
    }
}

/// A CR LF pair at `i` with none before it forces `find_crlf_from` to return
/// exactly `i`.
pub proof fn lemma_find_crlf_from_complete(s: Seq<u8>, from: int, i: int)
    requires
        0 <= from <= i,
        crlf_at(s, i),
        forall|j: int| from <= j < i ==> !crlf_at(s, j),
    ensures
        find_crlf_from(s, from) == Some(i),
    decreases i - from,
{
    if from < i {
        assert(!crlf_at(s, from));
        lemma_find_crlf_from_complete(s, from + 1, i);
        assert(find_crlf_from(s, from) == find_crlf_from(s, from + 1));
    } else {
        assert(s[from] == CR && s[from + 1] == LF);
        assert(find_crlf_from(s, from) == Some(from));
    }
}

/// `find_ws_from` returns the first whitespace at or after `from`, and
/// `None` means there is none.
pub proof fn lemma_find_ws_from_spec(s: Seq<u8>, from: int)
    requires
        0 <= from,
    ensures
        match find_ws_from(s, from) {
            Some(i) => from <= i < s.len() && is_ascii_ws(s[i]) && forall|j: int|
                from <= j < i ==> !is_ascii_ws(s[j]),
            None => forall|j: int| from <= j < s.len() ==> !is_ascii_ws(s[j]),
        },
    decreases s.len() - from,
{
    if from >= s.len() {
    } else if is_ascii_ws(s[from]) {
    } else {
        lemma_find_ws_from_spec(s, from + 1);
    }
}

/// Whether the byte is ASCII whitespace in the token-splitting sense.
pub fn is_ascii_ws_byte(b: u8) -> (r: bool)
    ensures
        r == is_ascii_ws(b),
{
    b == SP || b == HT || b == LF || b == FF || b == CR
}

/// The least index at or after `from` holding ASCII whitespace, if any.
pub fn find_ws(s: &[u8], from: usize) -> (r: Option<usize>)
    requires
        from <= s@.len(),
    ensures
        match r {
            Some(i) => find_ws_from(s@, from as int) == Some(i as int) && from <= i < s@.len(),
            None => find_ws_from(s@, from as int) is None,
        },
{
    let n = s.len();
    let mut i: usize = from;
    while i < n
        invariant
            from <= i <= n,
            n == s@.len(),
            find_ws_from(s@, from as int) == find_ws_from(s@, i as int),
        decreases n - i,
    {
        if is_ascii_ws_byte(s[i]) {
            return Some(i);
        }
        i += 1;
    }
    None
}

/// An ASCII lower-case letter mapped to upper case; any other byte unchanged.
pub fn byte_to_upper(b: u8) -> (r: u8)
    ensures
        r == to_upper(b),
{
    if b >= LOWER_A && b <= LOWER_Z {
        b - 32
    } else {
        b
    }
}

/// Whether the two byte slices hold the same bytes.
pub fn eq_bytes(a: &[u8], b: &[u8]) -> (r: bool)
    ensures
        r == (a@ == b@),
{
    if a.len() != b.len() {
        assert(a@ != b@) by {
            assert(a@.len() != b@.len());
        }
        return false;
    }
    let n = a.len();
    let mut i: usize = 0;
    while i < n
        invariant
            n == a@.len() == b@.len(),
            0 <= i <= n,
            forall|j: int| 0 <= j < i ==> a@[j] == b@[j],
        decreases n - i,
    {
        if a[i] != b[i] {
            return false;
        }
        i += 1;
    }
    assert(a@ =~= b@);
    true
}

/// Whether `a`, mapped to upper case, equals `pat` byte for byte.
pub fn upper_eq_bytes(a: &[u8], pat: &[u8]) -> (r: bool)
    ensures
        r == (upper_seq(a@) == pat@),
{
    if a.len() != pat.len() {
        assert(upper_seq(a@) != pat@) by {
            assert(upper_seq(a@).len() != pat@.len());
        }
        return false;
    }
    let n = a.len();
    let mut i: usize = 0;
    while i < n
        invariant
            n == a@.len() == pat@.len(),
            0 <= i <= n,
            forall|j: int| 0 <= j < i ==> to_upper(a@[j]) == pat@[j],
        decreases n - i,
    {
        if byte_to_upper(a[i]) != pat[i] {
            assert(upper_seq(a@)[i as int] != pat@[i as int]);
            return false;
        }
        i += 1;
    }
    assert(upper_seq(a@) =~= pat@);
    true
}

/// The least index at or after `from` holding `b`, if any.
pub fn find_byte(s: &[u8], b: u8, from: usize) -> (r: Option<usize>)
    requires
        from <= s@.len(),
    ensures
        match r {
            Some(i) => find_byte_from(s@, b, from as int) == Some(i as int) && from <= i < s@.len(),
            None => find_byte_from(s@, b, from as int) is None,
        },
{
    let n = s.len();
    let mut i: usize = from;
    while i < n
        invariant
            from <= i <= n,
            n == s@.len(),
            find_byte_from(s@, b, from as int) == find_byte_from(s@, b, i as int),
        decreases n - i,
    {
        if s[i] == b {
            return Some(i);
        }
        i += 1;
    }
    None
}

/// The least index at or after `from` where a CR LF pair starts, if any.
pub fn find_crlf(s: &[u8], from: usize) -> (r: Option<usize>)
    requires
        from <= s@.len(),
    ensures
        match r {
            Some(i) => find_crlf_from(s@, from as int) == Some(i as int) && from <= i
                && i + 2 <= s@.len(),
            None => find_crlf_from(s@, from as int) is None,
        },
{
    let n = s.len();
    if n < 2 {
        return None;
    }
    let mut i: usize = from;
    while i < n - 1
        invariant
            from <= i,
            2 <= n == s@.len(),
            find_crlf_from(s@, from as int) == find_crlf_from(s@, i as int),
        decreases n - i,
    {
        if s[i] == CR && s[i + 1] == LF {
            return Some(i);
        }
        i += 1;
    }
    None
}

/// The slice with its leading spaces removed.
pub fn strip_spaces<'a>(s: &'a [u8]) -> (r: &'a [u8])
    ensures
        r@ == strip_leading_spaces(s@),
{
    let n = s.len();
    assert(s@.subrange(0, n as int) =~= s@);
    let mut i: usize = 0;
    while i < n && s[i] == SP
        invariant
            0 <= i <= n,
            n == s@.len(),
            strip_leading_spaces(s@) == strip_leading_spaces(s@.subrange(i as int, n as int)),
        decreases n - i,
    {
        assert(s@.subrange(i as int, n as int).drop_first() =~= s@.subrange(
            i as int + 1,
            n as int,
        ));
        i += 1;
    }
    let r = vstd::slice::slice_subrange(s, i, n);
    assert(strip_leading_spaces(s@.subrange(i as int, n as int)) == s@.subrange(
        i as int,
        n as int,
    ));
    r
}

/// The slice with leading spaces, 'q' letters and '=' signs removed.
pub fn strip_q_markers<'a>(s: &'a [u8]) -> (r: &'a [u8])
    ensures
        r@ == strip_leading_q_markers(s@),
{
    let n = s.len();
    assert(s@.subrange(0, n as int) =~= s@);
    let mut i: usize = 0;
    while i < n && (s[i] == SP || s[i] == LOWER_Q || s[i] == EQUALS)
        invariant
            0 <= i <= n,
            n == s@.len(),
            strip_leading_q_markers(s@) == strip_leading_q_markers(
                s@.subrange(i as int, n as int),
            ),
        decreases n - i,
    {
        assert(s@.subrange(i as int, n as int).drop_first() =~= s@.subrange(
            i as int + 1,
            n as int,
        ));
        i += 1;
    }
    let r = vstd::slice::slice_subrange(s, i, n);
    assert(strip_leading_q_markers(s@.subrange(i as int, n as int)) == s@.subrange(
        i as int,
        n as int,
    ));
    r
}

/// Whether the byte is in the whitespace set of a trim.
pub fn is_trim_ws_byte(b: u8) -> (r: bool)
    ensures
        r == is_trim_ws(b),
{
    b == SP || b == HT || b == LF || b == VT || b == FF || b == CR
}

/// The slice with trim whitespace removed from both ends.
pub fn trim_slice<'a>(s: &'a [u8]) -> (r: &'a [u8])
    ensures
        r@ == trim(s@),
{
    let n = s.len();
    assert(s@.subrange(0, n as int) =~= s@);
    let mut i: usize = 0;
    while i < n && is_trim_ws_byte(s[i])
        invariant
            0 <= i <= n,
            n == s@.len(),
            trim_start(s@) == trim_start(s@.subrange(i as int, n as int)),
        decreases n - i,
    {
        assert(s@.subrange(i as int, n as int).drop_first() =~= s@.subrange(
            i as int + 1,
            n as int,
        ));
        i += 1;
    }
    assert(trim_start(s@.subrange(i as int, n as int)) == s@.subrange(i as int, n as int));
    let mut j: usize = n;
    while j > i && is_trim_ws_byte(s[j - 1])
        invariant
            i <= j <= n,
            n == s@.len(),
            trim_start(s@) == s@.subrange(i as int, n as int),
            trim_end(s@.subrange(i as int, n as int)) == trim_end(
                s@.subrange(i as int, j as int),
            ),
        decreases j,
    {
        assert(s@.subrange(i as int, j as int).drop_last() =~= s@.subrange(
            i as int,
            j as int - 1,
        ));
        j -= 1;
    }
    assert(trim_end(s@.subrange(i as int, j as int)) == s@.subrange(i as int, j as int));
    vstd::slice::slice_subrange(s, i, j)
}

/// The value of the decimal digits in `s`, or `None` when `s` is empty, holds
/// a non-digit, or denotes a number that does not fit in `usize`.
pub fn parse_decimal(s: &[u8]) -> (r: Option<usize>)
    ensures
        match r {
            Some(n) => s@.len() > 0 && all_digits(s@) && n == dec_val(s@),
            None => s@.len() == 0 || !all_digits(s@) || dec_val(s@) > usize::MAX,
        },
{
    let n = s.len();
    if n == 0 {
        return None;
    }
    let mut acc: usize = 0;
    let mut i: usize = 0;
    while i < n
        invariant
            0 <= i <= n,
            n == s@.len(),
            all_digits(s@.subrange(0, i as int)),
            acc == dec_val(s@.subrange(0, i as int)),
        decreases n - i,
    {
        let b = s[i];
        if b < DIGIT_0 || b > DIGIT_9 {
            assert(!is_digit(s@[i as int]));
            return None;
        }
        let d = (b - DIGIT_0) as usize;
        proof {
            assert(s@.subrange(0, i as int + 1).drop_last() =~= s@.subrange(0, i as int));
            assert(s@.subrange(0, i as int + 1).last() == s@[i as int]);
        }
        if acc > (usize::MAX - d) / 10 {
            proof {
                assert(dec_val(s@.subrange(0, i as int + 1)) == acc * 10 + d);
                assert(acc * 10 + d > usize::MAX) by (nonlinear_arith)
                    requires
                        acc > (usize::MAX - d) / 10,
                        0 <= d <= 9,
                        usize::MAX >= 9,
                ;
                if all_digits(s@) {
                    lemma_dec_val_prefix_overflow(s@, i as int + 1);
                }
            }
            return None;
        }
        acc = acc * 10 + d;
        i += 1;
    }
    assert(s@.subrange(0, n as int) =~= s@);
    Some(acc)
}

/// A digit appended to a digit string never lowers its value, so a prefix
/// whose value already exceeds `usize::MAX` condemns the whole string.
pub proof fn lemma_dec_val_prefix_overflow(s: Seq<u8>, i: int)
    requires
        0 <= i <= s.len(),
        all_digits(s),
    ensures
        dec_val(s.subrange(0, i)) <= dec_val(s),
    decreases s.len() - i,
{
    lemma_dec_val_nonneg(s.subrange(0, i));
    if i < s.len() {
        assert(s.subrange(0, i + 1).drop_last() =~= s.subrange(0, i));
        assert(is_digit(s[i]));
        assert(dec_val(s.subrange(0, i + 1)) == dec_val(s.subrange(0, i)) * 10 + (s[i]
            - DIGIT_0));
        assert(dec_val(s.subrange(0, i)) * 10 >= dec_val(s.subrange(0, i))) by (nonlinear_arith)
            requires
                dec_val(s.subrange(0, i)) >= 0,
        ;
        lemma_dec_val_prefix_overflow(s, i + 1);
    } else {
        assert(s.subrange(0, i) =~= s);
    }
}

/// Coarse bounds on short digit strings: at most one digit stays below 10,
/// two below 100, three below 1000.
pub proof fn lemma_dec_val_len_bound(s: Seq<u8>)
    requires
        all_digits(s),
    ensures
        s.len() == 0 ==> dec_val(s) == 0,
        s.len() <= 1 ==> dec_val(s) <= 9,
        s.len() <= 2 ==> dec_val(s) <= 99,
        s.len() <= 3 ==> dec_val(s) <= 999,
    decreases s.len(),
{
    if s.len() > 0 {
        assert(all_digits(s.drop_last())) by {
            assert(forall|i: int| 0 <= i < s.len() - 1 ==> s.drop_last()[i] == s[i]);
        }
        lemma_dec_val_len_bound(s.drop_last());
        assert(is_digit(s.last()));
    }
}

/// The decimal value of a digit string is never negative.
pub proof fn lemma_dec_val_nonneg(s: Seq<u8>)
    requires
        all_digits(s),
    ensures
        dec_val(s) >= 0,
    decreases s.len(),
{
    if s.len() > 0 {
        assert(all_digits(s.drop_last())) by {
            assert(forall|i: int| 0 <= i < s.len() - 1 ==> s.drop_last()[i] == s[i]);
        }
        lemma_dec_val_nonneg(s.drop_last());
        assert(is_digit(s.last()));
        assert(dec_val(s.drop_last()) * 10 >= 0) by (nonlinear_arith)
            requires
                dec_val(s.drop_last()) >= 0,
        ;
    }
}

} // verus!
