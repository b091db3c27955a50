//! Character and string helpers shared by the pipeline stages.

use vstd::prelude::*;
use vstd::string::StringSliceAdditionalSpecFns;

verus! {

/// Relies on `String::push`: appends exactly one character to the string.
#[verifier::external_body]
pub fn push_char(s: &mut String, c: char)
    ensures
        final(s)@ == old(s)@.push(c),
{
    s.push(c);
}

/// Decides equality of two string slices character by character.
pub fn str_eq(a: &str, b: &str) -> (r: bool)
    ensures
        r == (a@ == b@),
{
    let a_len = a.unicode_len();
    let b_len = b.unicode_len();
    if a_len != b_len {
        return false;
    }
    let mut i: usize = 0;
    while i < a_len
        invariant
            i <= a_len,
            a_len == a@.len(),
            a_len == b@.len(),
            forall|j: int| 0 <= j < i ==> a@[j] == b@[j],
        decreases a_len - i,
    {
        if a.get_char(i) != b.get_char(i) {
            return false;
        }
        i = i + 1;
    }
    proof {
        assert(a@ =~= b@);
    }
    true
}

/// The characters that count as white space, as Unicode defines the
/// White_Space property.
pub open spec fn is_wschar(c: char) -> bool {
    ||| c == '\u{0009}'
    ||| c == '\u{000A}'
    ||| c == '\u{000B}'
    ||| c == '\u{000C}'
    ||| c == '\u{000D}'
    ||| c == ' '
    ||| c == '\u{0085}'
    ||| c == '\u{00A0}'
    ||| c == '\u{1680}'
    ||| ('\u{2000}' <= c && c <= '\u{200A}')
    ||| c == '\u{2028}'
    ||| c == '\u{2029}'
    ||| c == '\u{202F}'
    ||| c == '\u{205F}'
    ||| c == '\u{3000}'
}

pub fn is_wschar_exec(c: char) -> (r: bool)
    ensures
        r == is_wschar(c),
{
    c == '\u{0009}' || c == '\u{000A}' || c == '\u{000B}' || c == '\u{000C}' || c == '\u{000D}'
        || c == ' ' || c == '\u{0085}' || c == '\u{00A0}' || c == '\u{1680}' || (c >= '\u{2000}'
        && c <= '\u{200A}') || c == '\u{2028}' || c == '\u{2029}' || c == '\u{202F}' || c
        == '\u{205F}' || c == '\u{3000}'
}

/// The sequence with leading and trailing white space removed.
pub open spec fn spec_trim(s: Seq<char>) -> Seq<char>
    decreases s.len(),
{
    if s.len() == 0 {
        s
    } else if is_wschar(s[0]) {
        spec_trim(s.skip(1))
    } else if is_wschar(s.last()) {
        spec_trim(s.take(s.len() - 1))
    } else {
        s
    }
}

/// Removes leading and trailing white space, as `str::trim` does.
pub fn trim_string(s: &String) -> (r: String)
    ensures
        r@ == spec_trim(s@),
{
    let st = s.as_str();
    let n = st.unicode_len();
    let mut a: usize = 0;
    proof {
        assert(st@.skip(0) =~= st@);
    }
    while a < n && is_wschar_exec(st.get_char(a))
        invariant
            a <= n,
            n == st@.len(),
            forall|j: int| 0 <= j < a ==> is_wschar(st@[j]),
            spec_trim(st@) == spec_trim(st@.skip(a as int)),
        decreases n - a,
    {
        proof {
            assert(st@.skip(a as int).skip(1) =~= st@.skip(a as int + 1));
        }
        a = a + 1;
    }
    if a == n {
        proof {
            assert(st@.skip(a as int).len() == 0);
        }
        return String::new();
    }
    let mut b: usize = n;
    proof {
        assert(st@.skip(a as int).take(n - a as int) =~= st@.skip(a as int));
    }
    while b > a + 1 && is_wschar_exec(st.get_char(b - 1))
        invariant
            a < b <= n,
            n == st@.len(),
            !is_wschar(st@[a as int]),
            spec_trim(st@) == spec_trim(st@.skip(a as int).take(b - a as int)),
        decreases b,
    {
        proof {
            let cur = st@.skip(a as int).take(b - a as int);
            assert(cur.len() > 0);
            assert(!is_wschar(cur[0]));
            assert(cur.last() == st@[b as int - 1]);
            assert(cur.take(cur.len() - 1) =~= st@.skip(a as int).take(b - 1 - a as int));
        }
        b = b - 1;
    }
    let piece = st.substring_char(a, b);
    proof {
        let cur = st@.skip(a as int).take(b - a as int);
        assert(!is_wschar(cur[0]));
        if b > a + 1 {
            assert(cur.last() == st@[b as int - 1]);
            assert(!is_wschar(cur.last()));
        } else {
            assert(cur.len() == 1);
            assert(cur.last() == cur[0]);
        }
        assert(spec_trim(cur) == cur);
        assert(piece@ =~= cur);
    }
    piece.to_owned()
}

/// Lower-cases the characters `A` to `Z` and leaves everything else alone.
pub open spec fn ascii_lower_char(c: char) -> char {
    if 'A' <= c && c <= 'Z' {
        ((c as u32) + 32) as char
    } else {
        c
    }
}

pub open spec fn ascii_lower(s: Seq<char>) -> Seq<char> {
    s.map_values(|c: char| ascii_lower_char(c))
}

/// Lower-cases the ASCII letters of a string, as `str::to_ascii_lowercase`.
pub fn ascii_lower_string(s: &String) -> (r: String)
    ensures
        r@ == ascii_lower(s@),
{
    let st = s.as_str();
    let n = st.unicode_len();
    let mut r = String::new();
    let mut i: usize = 0;
    while i < n
        invariant
            i <= n,
            n == st@.len(),
            r@ =~= ascii_lower(st@.subrange(0, i as int)),
        decreases n - i,
    {
        let c = st.get_char(i);
        if c >= 'A' && c <= 'Z' {
            push_char(&mut r, ((c as u32) + 32) as u8 as char);
            proof {
                assert(c as u32 <= 90);
                assert((((c as u32) + 32) as u8) as char == (((c as u32) + 32)) as char);
            }
        } else {
            push_char(&mut r, c);
        }
        i = i + 1;
        proof {
            assert(st@.subrange(0, i as int) =~= st@.subrange(0, i as int - 1).push(
                st@[i as int - 1],
            ));
        }
    }
    proof {
        assert(st@.subrange(0, n as int) =~= st@);
    }
    r
}

/// Lexicographic order on character sequences, by code point.
pub open spec fn seq_lt(a: Seq<char>, b: Seq<char>) -> bool
    decreases a.len(),
{
    if b.len() == 0 {
        false
    } else if a.len() == 0 {
        true
    } else if a[0] != b[0] {
        (a[0] as u32) < (b[0] as u32)
    } else {
        seq_lt(a.skip(1), b.skip(1))
    }
}

/// Decides the lexicographic order of two strings by code point, which for
/// UTF-8 text agrees with the byte-wise order used by `str`'s own ordering.
pub fn str_lt(a: &str, b: &str) -> (r: bool)
    ensures
        r == seq_lt(a@, b@),
{
    let a_len = a.unicode_len();
    let b_len = b.unicode_len();
    let mut i: usize = 0;
    proof {
        assert(a@.skip(0) =~= a@);
        assert(b@.skip(0) =~= b@);
    }
    loop
        invariant
            i <= a_len,
            i <= b_len,
            a_len == a@.len(),
            b_len == b@.len(),
            a@.subrange(0, i as int) =~= b@.subrange(0, i as int),
            seq_lt(a@, b@) == seq_lt(a@.skip(i as int), b@.skip(i as int)),
        decreases a_len - i,
    {
        if i == b_len {
            proof {
                assert(b@.skip(i as int).len() == 0);
            }
            return false;
        }
        if i == a_len {
            proof {
                assert(a@.skip(i as int).len() == 0);
                assert(b@.skip(i as int).len() > 0);
            }
            return true;
        }
        let ca = a.get_char(i);
        let cb = b.get_char(i);
        if ca != cb {
            proof {
                assert(a@.skip(i as int)[0] == a@[i as int]);
                assert(b@.skip(i as int)[0] == b@[i as int]);
            }
            return (ca as u32) < (cb as u32);
        }
        proof {
            assert(a@.skip(i as int).skip(1) =~= a@.skip(i as int + 1));
            assert(b@.skip(i as int).skip(1) =~= b@.skip(i as int + 1));
            assert(a@.subrange(0, i as int + 1) =~= b@.subrange(0, i as int + 1));
        }
        i = i + 1;
    }
}

} // verus!

verus! {

/// Whether the pattern occurs in the haystack at position `i`.
pub open spec fn bytes_match_at(h: Seq<u8>, pat: Seq<u8>, i: int) -> bool {
    &&& 0 <= i
    &&& i + pat.len() <= h.len()
    &&& h.subrange(i, i + pat.len()) == pat
}

/// Whether the pattern occurs anywhere in the haystack, as `str::contains`
/// decides for the byte forms of the strings.
pub open spec fn spec_bytes_contains(h: Seq<u8>, pat: Seq<u8>) -> bool {
    exists|i: int| bytes_match_at(h, pat, i)
}

/// Byte-wise substring search.
pub fn bytes_contains(h: &Vec<u8>, pat: &Vec<u8>) -> (r: bool)
    ensures
        r == spec_bytes_contains(h@, pat@),
{
    let n = h.len();
    let m = pat.len();
    if m > n {
        proof {
            assert(forall|i: int| !bytes_match_at(h@, pat@, i));
        }
        return false;
    }
    let mut i: usize = 0;
    while i <= n - m
        invariant
            m <= n,
            n == h@.len(),
            m == pat@.len(),
            i <= n - m + 1,
            forall|k: int| 0 <= k < i ==> !bytes_match_at(h@, pat@, k),
        decreases n - m + 1 - i,
    {
        let mut j: usize = 0;
        let mut matched = true;
        while j < m
            invariant
                m <= n,
                n == h@.len(),
                m == pat@.len(),
                i <= n - m,
                j <= m,
                matched == (h@.subrange(i as int, i + j as int) =~= pat@.subrange(
                    0,
                    j as int,
                )),
            decreases m - j,
        {
            proof {
                let a = h@.subrange(i as int, i + j as int + 1);
                let b = pat@.subrange(0, j as int + 1);
                assert(a.drop_last() =~= h@.subrange(i as int, i + j as int));
                assert(b.drop_last() =~= pat@.subrange(0, j as int));
                assert(a.last() == h@[i + j]);
                assert(b.last() == pat@[j as int]);
            }
            if h[i + j] != pat[j] {
                matched = false;
                proof {
                    assert(h@.subrange(i as int, i + j as int + 1)[j as int] != pat@.subrange(
                        0,
                        j as int + 1,
                    )[j as int]);
                }
                j = m;
            } else {
                proof {
                    let a = h@.subrange(i as int, i + j as int + 1);
                    let b = pat@.subrange(0, j as int + 1);
                    if h@.subrange(i as int, i + j as int) =~= pat@.subrange(0, j as int) {
                        assert(a =~= b);
                    }
                }
                j = j + 1;
            }
        }
        if matched {
            proof {
                assert(pat@.subrange(0, m as int) =~= pat@);
                assert(bytes_match_at(h@, pat@, i as int));
            }
            return true;
        }
        proof {
            assert(pat@.subrange(0, m as int) =~= pat@);
        }
        i = i + 1;
    }
    proof {
        assert(forall|k: int| bytes_match_at(h@, pat@, k) ==> 0 <= k <= n - m);
    }
    false
}

/// Substring search on the byte forms of two strings, which is how `str`'s
/// own `contains` decides.
pub fn str_contains(s: &str, pat: &str) -> (r: bool)
    ensures
        r == spec_bytes_contains(s.spec_bytes(), pat.spec_bytes()),
{
    let hb = s.as_bytes_vec();
    let pb = pat.as_bytes_vec();
    bytes_contains(&hb, &pb)
}

} // verus!

verus! {

/// Relies on `String::from_utf8`: succeeds exactly on valid UTF-8 and
/// decodes the bytes to their characters.
#[verifier::external_body]
pub fn bytes_to_string(v: &Vec<u8>) -> (r: Option<String>)
    ensures
        r is Some <==> vstd::utf8::valid_utf8(v@),
        r is Some ==> r->Some_0@ == vstd::utf8::decode_utf8(v@),
{
    match String::from_utf8(v.clone()) {
        Ok(s) => Some(s),
        Err(_) => None,
    }
}

/// The decimal form of a non-negative number.
pub open spec fn dec_str(n: int) -> Seq<char>
    decreases n,
{
    if n < 10 {
        seq![crate::dump_date::digit_char(n)]
    } else {
        dec_str(n / 10).push(crate::dump_date::digit_char(n % 10))
    }
}

/// Writes a number in decimal.
pub fn usize_to_string(n: usize) -> (r: String)
    ensures
        r@ == dec_str(n as int),
    decreases n,
{
    if n < 10 {
        let mut s = String::new();
        push_char(&mut s, crate::dump_date::digit_char_of(n as u16));
        proof {
            assert(s@ =~= seq![crate::dump_date::digit_char(n as int)]);
        }
        s
    } else {
        let mut s = usize_to_string(n / 10);
        push_char(&mut s, crate::dump_date::digit_char_of((n % 10) as u16));
        s
    }
}

/// Copies the byte range `[from, to)` out of the buffer.
pub fn bytes_slice(v: &Vec<u8>, from: usize, to: usize) -> (r: Vec<u8>)
    requires
        from <= to <= v@.len(),
    ensures
        r@ == v@.subrange(from as int, to as int),
{
    let mut out: Vec<u8> = Vec::new();
    let mut i: usize = from;
    while i < to
        invariant
            from <= i <= to <= v@.len(),
            out@ =~= v@.subrange(from as int, i as int),
        decreases to - i,
    {
        out.push(v[i]);
        i = i + 1;
        proof {
            assert(v@.subrange(from as int, i as int) =~= v@.subrange(from as int, i as int - 1)
                .push(v@[i as int - 1]));
        }
    }
    out
}

} // verus!

verus! {

/// How many bytes at the head of the buffer encode one white-space
/// character, or zero when the head is not white space. The encodings cover
/// every character of the Unicode White_Space property.
pub open spec fn ws_prefix_len(b: Seq<u8>) -> int {
    if b.len() >= 1 && (b[0] == 9 || b[0] == 10 || b[0] == 11 || b[0] == 12 || b[0] == 13 || b[0]
        == 32) {
        1
    } else if b.len() >= 2 && b[0] == 0xc2 && (b[1] == 0x85 || b[1] == 0xa0) {
        2
    } else if b.len() >= 3 && b[0] == 0xe1 && b[1] == 0x9a && b[2] == 0x80 {
        3
    } else if b.len() >= 3 && b[0] == 0xe2 && b[1] == 0x80 && (0x80 <= b[2] <= 0x8a || b[2]
        == 0xa8 || b[2] == 0xa9 || b[2] == 0xaf) {
        3
    } else if b.len() >= 3 && b[0] == 0xe2 && b[1] == 0x81 && b[2] == 0x9f {
        3
    } else if b.len() >= 3 && b[0] == 0xe3 && b[1] == 0x80 && b[2] == 0x80 {
        3
    } else {
        0
    }
}

/// Whether the buffer holds nothing but white space, which for UTF-8 text
/// is when trimming it leaves the empty string.
pub open spec fn blank_bytes(b: Seq<u8>) -> bool
    decreases b.len(),
{
    if b.len() == 0 {
        true
    } else if ws_prefix_len(b) == 0 {
        false
    } else {
        blank_bytes(b.skip(ws_prefix_len(b)))
    }
}

fn ws_len_at(v: &Vec<u8>, i: usize) -> (r: usize)
    requires
        i <= v@.len(),
    ensures
        r as int == ws_prefix_len(v@.skip(i as int)),
        i + r <= v@.len(),
{
    let n = v.len();
    proof {
        assert(forall|k: int|
            0 <= k < v@.skip(i as int).len() ==> #[trigger] v@.skip(i as int)[k] == v@[i + k]);
    }
    if i < n && (v[i] == 9 || v[i] == 10 || v[i] == 11 || v[i] == 12 || v[i] == 13 || v[i]
        == 32) {
        1
    } else if n - i >= 2 && v[i] == 0xc2 && (v[i + 1] == 0x85 || v[i + 1] == 0xa0) {
        2
    } else if n - i >= 3 && v[i] == 0xe1 && v[i + 1] == 0x9a && v[i + 2] == 0x80 {
        3
    } else if n - i >= 3 && v[i] == 0xe2 && v[i + 1] == 0x80 && ((0x80 <= v[i + 2] && v[i + 2]
        <= 0x8a) || v[i + 2] == 0xa8 || v[i + 2] == 0xa9 || v[i + 2] == 0xaf) {
        3
    } else if n - i >= 3 && v[i] == 0xe2 && v[i + 1] == 0x81 && v[i + 2] == 0x9f {
        3
    } else if n - i >= 3 && v[i] == 0xe3 && v[i + 1] == 0x80 && v[i + 2] == 0x80 {
        3
    } else {
        0
    }
}

/// Decides whether the buffer is all white space.
pub fn is_blank_bytes(v: &Vec<u8>) -> (r: bool)
    ensures
        r == blank_bytes(v@),
{
    let n = v.len();
    let mut i: usize = 0;
    proof {
        assert(v@.skip(0) =~= v@);
    }
    while i < n
        invariant
            i <= n,
            n == v@.len(),
            blank_bytes(v@) == blank_bytes(v@.skip(i as int)),
        decreases n - i,
    {
        let l = ws_len_at(v, i);
        if l == 0 {
            return false;
        }
        proof {
            assert(v@.skip(i as int).skip(l as int) =~= v@.skip(i + l));
        }
        i = i + l;
    }
    proof {
        assert(v@.skip(n as int).len() == 0);
    }
    true
}

/// Appends the byte range `[from, to)` of the source to the buffer.
pub fn append_slice(buf: &mut Vec<u8>, src: &Vec<u8>, from: usize, to: usize)
    requires
        from <= to <= src@.len(),
    ensures
        final(buf)@ == old(buf)@ + src@.subrange(from as int, to as int),
{
    let mut i: usize = from;
    while i < to
        invariant
            from <= i <= to <= src@.len(),
            buf@ =~= old(buf)@ + src@.subrange(from as int, i as int),
        decreases to - i,
    {
        buf.push(src[i]);
        i = i + 1;
        proof {
            assert(src@.subrange(from as int, i as int) =~= src@.subrange(
                from as int,
                i as int - 1,
            ).push(src@[i as int - 1]));
        }
    }
    proof {
        assert(final(buf)@ =~= old(buf)@ + src@.subrange(from as int, to as int));
    }
}

} // verus!

verus! {

/// Relies on `Vec::insert`: places the element at the index and shifts the
/// rest to the right.
#[verifier::external_body]
pub fn vec_insert_at<T>(v: &mut Vec<T>, i: usize, x: T)
    requires
        i <= old(v)@.len(),
    ensures
        final(v)@ == old(v)@.insert(i as int, x),
{
    v.insert(i, x);
}

/// The order is transitive.
pub proof fn lemma_seq_lt_trans(a: Seq<char>, b: Seq<char>, c: Seq<char>)
    requires
        seq_lt(a, b),
        seq_lt(b, c),
    ensures
        seq_lt(a, c),
    decreases a.len() + b.len() + c.len(),
{
    if b.len() == 0 {
    } else if a.len() == 0 {
    } else if c.len() == 0 {
    } else {
        if a[0] != b[0] {
            if b[0] != c[0] {
            } else {
            }
        } else if b[0] != c[0] {
        } else {
            lemma_seq_lt_trans(a.skip(1), b.skip(1), c.skip(1));
        }
    }
}

/// Irreflexivity.
pub proof fn lemma_seq_lt_irrefl(a: Seq<char>)
    ensures
        !seq_lt(a, a),
    decreases a.len(),
{
    if a.len() > 0 {
        lemma_seq_lt_irrefl(a.skip(1));
    }
}

} // verus!
