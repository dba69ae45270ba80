//! The JSON-style string form used throughout the library: escaping of quote
//! and backslash characters, quoted string literals, and the flat objects that
//! carry identities, credentials and token claims.

use vstd::prelude::*;

verus! {

/// The value of a lower-case hexadecimal digit character, or a negative
/// number for any other character.
pub open spec fn hex_val(c: char) -> int {
    if c == '0' {
        0
    } else if c == '1' {
        1
    } else if c == '2' {
        2
    } else if c == '3' {
        3
    } else if c == '4' {
        4
    } else if c == '5' {
        5
    } else if c == '6' {
        6
    } else if c == '7' {
        7
    } else if c == '8' {
        8
    } else if c == '9' {
        9
    } else if c == 'a' {
        10
    } else if c == 'b' {
        11
    } else if c == 'c' {
        12
    } else if c == 'd' {
        13
    } else if c == 'e' {
        14
    } else if c == 'f' {
        15
    } else {
        -1
    }
}

pub proof fn lemma_hex_digit_val(n: int)
    requires
        0 <= n < 16,
    ensures
        hex_val(crate::hexenc::hex_digit(n)) == n,
{
}

pub proof fn lemma_hex_val_digit(c: char)
    requires
        hex_val(c) >= 0,
    ensures
        hex_val(c) < 16,
        crate::hexenc::hex_digit(hex_val(c)) == c,
{
}

/// Any character's code point is non-negative and below 0x110000.
pub proof fn lemma_char_bound(c: char)
    ensures
        0 <= (c as int) && (c as int) < 0x110000,
{
}

/// How a single character is escaped inside a quoted string: quote and
/// backslash get a leading backslash, control characters render as a
/// four-digit hexadecimal escape, everything else stands as it is.
pub open spec fn escc(c: char) -> Seq<char> {
    if c == '"' || c == '\\' {
        seq!['\\', c]
    } else if (c as int) < 0x20 {
        seq!['\\', 'u', '0', '0', crate::hexenc::hex_digit(c as int / 16), crate::hexenc::hex_digit(
            c as int % 16,
        )]
    } else {
        seq![c]
    }
}

/// The escaped form of a whole string: quote and backslash get a leading
/// backslash, every other character stands as it is.
pub open spec fn esc(s: Seq<char>) -> Seq<char>
    decreases s.len(),
{
    if s.len() == 0 {
        Seq::empty()
    } else {
        escc(s[0]) + esc(s.subrange(1, s.len() as int))
    }
}

/// A quoted string literal: the escaped content between two quotes.
pub open spec fn jstr(s: Seq<char>) -> Seq<char> {
    seq!['"'] + esc(s) + seq!['"']
}

pub proof fn lemma_esc_snoc(s: Seq<char>, c: char)
    ensures
        esc(s.push(c)) == esc(s) + escc(c),
    decreases s.len(),
{
    if s.len() == 0 {
        assert(s.push(c).subrange(1, s.push(c).len() as int) =~= Seq::empty());
        assert(s.push(c)[0] == c);
        assert(esc(s.push(c)) == escc(s.push(c)[0]) + esc(
            s.push(c).subrange(1, s.push(c).len() as int),
        ));
        assert(esc(s.push(c)) =~= escc(c));
        assert(esc(s) + escc(c) =~= escc(c));
    } else {
        assert(s.push(c).subrange(1, s.push(c).len() as int) =~= s.subrange(
            1,
            s.len() as int,
        ).push(c));
        lemma_esc_snoc(s.subrange(1, s.len() as int), c);
        assert(esc(s.push(c)) =~= esc(s) + escc(c));
    }
}

/// Scanner for the body of a quoted string: the input starts just after the
/// opening quote; on success it yields the decoded content together with the
/// number of characters consumed, the closing quote included.
pub open spec fn scan_str(t: Seq<char>) -> Option<(Seq<char>, int)>
    decreases t.len(),
{
    if t.len() == 0 {
        None
    } else if t[0] == '"' {
        Some((Seq::empty(), 1))
    } else if t[0] == '\\' {
        if t.len() >= 2 && (t[1] == '"' || t[1] == '\\') {
            match scan_str(t.subrange(2, t.len() as int)) {
                Some(p) => Some((seq![t[1]] + p.0, p.1 + 2)),
                None => None,
            }
        } else if t.len() >= 6 && t[1] == 'u' && t[2] == '0' && t[3] == '0' && hex_val(t[4]) >= 0
            && hex_val(t[5]) >= 0 && hex_val(t[4]) * 16 + hex_val(t[5]) < 0x20 {
            match scan_str(t.subrange(6, t.len() as int)) {
                Some(p) => Some(
                    (seq![(hex_val(t[4]) * 16 + hex_val(t[5])) as char] + p.0, p.1 + 6),
                ),
                None => None,
            }
        } else {
            None
        }
    } else if (t[0] as int) < 0x20 {
        None
    } else {
        match scan_str(t.subrange(1, t.len() as int)) {
            Some(p) => Some((seq![t[0]] + p.0, p.1 + 1)),
            None => None,
        }
    }
}

/// Soundness of the scanner: what it consumed is exactly the escaped form of
/// what it decoded, followed by the closing quote.
pub proof fn lemma_scan_str_sound(t: Seq<char>)
    ensures
        scan_str(t) matches Some(p) ==> {
            &&& 0 < p.1 <= t.len()
            &&& t.subrange(0, p.1) == esc(p.0) + seq!['"']
        },
    decreases t.len(),
{
    if t.len() == 0 {
    } else if t[0] == '"' {
        assert(t.subrange(0, 1) =~= esc(Seq::empty()) + seq!['"']);
    } else if t[0] == '\\' {
        if t.len() >= 2 && (t[1] == '"' || t[1] == '\\') {
            let t2 = t.subrange(2, t.len() as int);
            lemma_scan_str_sound(t2);
            if scan_str(t2) is Some {
                let q = scan_str(t2).unwrap();
                assert(esc(seq![t[1]] + q.0) =~= escc(t[1]) + esc(q.0)) by {
                    let s = seq![t[1]] + q.0;
                    assert(s[0] == t[1]);
                    assert(s.subrange(1, s.len() as int) =~= q.0);
                }
                assert(t.subrange(0, q.1 + 2) =~= seq!['\\', t[1]] + t2.subrange(0, q.1));
                assert(t.subrange(0, q.1 + 2) =~= esc(seq![t[1]] + q.0) + seq!['"']);
            }
        } else if t.len() >= 6 && t[1] == 'u' && t[2] == '0' && t[3] == '0' && hex_val(t[4]) >= 0
            && hex_val(t[5]) >= 0 && hex_val(t[4]) * 16 + hex_val(t[5]) < 0x20 {
            let t6 = t.subrange(6, t.len() as int);
            lemma_scan_str_sound(t6);
            if scan_str(t6) is Some {
                let q = scan_str(t6).unwrap();
                let n = hex_val(t[4]) * 16 + hex_val(t[5]);
                let ch = n as char;
                lemma_hex_val_digit(t[4]);
                lemma_hex_val_digit(t[5]);
                assert(ch as int == n);
                assert(n / 16 == hex_val(t[4]) && n % 16 == hex_val(t[5]));
                assert(escc(ch) =~= seq!['\\', 'u', '0', '0', t[4], t[5]]);
                assert(esc(seq![ch] + q.0) =~= escc(ch) + esc(q.0)) by {
                    let s = seq![ch] + q.0;
                    assert(s[0] == ch);
                    assert(s.subrange(1, s.len() as int) =~= q.0);
                }
                assert(t.subrange(0, q.1 + 6) =~= seq!['\\', 'u', '0', '0', t[4], t[5]]
                    + t6.subrange(0, q.1));
                assert(t.subrange(0, q.1 + 6) =~= esc(seq![ch] + q.0) + seq!['"']);
            }
        }
    } else if (t[0] as int) < 0x20 {
    } else {
        let t1 = t.subrange(1, t.len() as int);
        lemma_scan_str_sound(t1);
        if scan_str(t1) is Some {
            let q = scan_str(t1).unwrap();
            assert(esc(seq![t[0]] + q.0) =~= escc(t[0]) + esc(q.0)) by {
                let s = seq![t[0]] + q.0;
                assert(s[0] == t[0]);
                assert(s.subrange(1, s.len() as int) =~= q.0);
            }
            assert(t.subrange(0, q.1 + 1) =~= seq![t[0]] + t1.subrange(0, q.1));
            assert(t.subrange(0, q.1 + 1) =~= esc(seq![t[0]] + q.0) + seq!['"']);
        }
    }
}

/// Completeness of the scanner: wherever a prefix of the input has the shape
/// of an escaped string and its closing quote, the scanner finds exactly it.
pub proof fn lemma_scan_str_complete(t: Seq<char>, v: Seq<char>, n: int)
    requires
        0 <= n <= t.len(),
        t.subrange(0, n) == esc(v) + seq!['"'],
    ensures
        scan_str(t) == Some((v, n)),
    decreases v.len(),
{
    if v.len() == 0 {
        assert(n == 1);
        assert(t[0] == (esc(v) + seq!['"'])[0]);
        assert(t[0] == '"');
        assert(scan_str(t) == Some((Seq::<char>::empty(), 1int)));
        assert(v =~= Seq::<char>::empty());
    } else {
        let c = v[0];
        let v1 = v.subrange(1, v.len() as int);
        assert(esc(v) == escc(c) + esc(v1));
        assert(t.subrange(0, n).len() == n);
        assert(n == esc(v).len() + 1);
        if c == '"' || c == '\\' {
            assert(esc(v) + seq!['"'] =~= seq!['\\', c] + (esc(v1) + seq!['"']));
            assert(t.subrange(0, n)[0] == t[0]);
            assert(t[0] == '\\');
            assert(t.subrange(0, n)[1] == t[1]);
            assert(t[1] == c);
            let t2 = t.subrange(2, t.len() as int);
            assert(t2.subrange(0, n - 2) =~= esc(v1) + seq!['"']) by {
                assert(forall|j: int|
                    0 <= j < n - 2 ==> #[trigger] t2.subrange(0, n - 2)[j] == t.subrange(0, n)[
                        j + 2
                    ]);
            }
            lemma_scan_str_complete(t2, v1, n - 2);
            assert(seq![t[1]] + v1 =~= v);
        } else if (c as int) < 0x20 {
            let d1 = crate::hexenc::hex_digit(c as int / 16);
            let d2 = crate::hexenc::hex_digit(c as int % 16);
            assert(esc(v) + seq!['"'] =~= seq!['\\', 'u', '0', '0', d1, d2] + (esc(v1)
                + seq!['"']));
            assert(t.subrange(0, n)[0] == t[0]);
            assert(t.subrange(0, n)[1] == t[1]);
            assert(t.subrange(0, n)[2] == t[2]);
            assert(t.subrange(0, n)[3] == t[3]);
            assert(t.subrange(0, n)[4] == t[4]);
            assert(t.subrange(0, n)[5] == t[5]);
            assert(t[0] == '\\' && t[1] == 'u' && t[2] == '0' && t[3] == '0' && t[4] == d1
                && t[5] == d2);
            lemma_char_bound(c);
            lemma_hex_digit_val(c as int / 16);
            lemma_hex_digit_val(c as int % 16);
            assert(hex_val(t[4]) * 16 + hex_val(t[5]) == c as int);
            assert((c as int) as char == c);
            let t6 = t.subrange(6, t.len() as int);
            assert(t6.subrange(0, n - 6) =~= esc(v1) + seq!['"']) by {
                assert(forall|j: int|
                    0 <= j < n - 6 ==> #[trigger] t6.subrange(0, n - 6)[j] == t.subrange(0, n)[
                        j + 6
                    ]);
            }
            lemma_scan_str_complete(t6, v1, n - 6);
            assert(seq![(hex_val(t[4]) * 16 + hex_val(t[5])) as char] + v1 =~= v);
        } else {
            assert(esc(v) + seq!['"'] =~= seq![c] + (esc(v1) + seq!['"']));
            assert(t.subrange(0, n)[0] == t[0]);
            assert(t[0] == c);
            assert(t[0] != '"' && t[0] != '\\');
            let t1 = t.subrange(1, t.len() as int);
            assert(t1.subrange(0, n - 1) =~= esc(v1) + seq!['"']) by {
                assert(forall|j: int|
                    0 <= j < n - 1 ==> #[trigger] t1.subrange(0, n - 1)[j] == t.subrange(0, n)[
                        j + 1
                    ]);
            }
            lemma_scan_str_complete(t1, v1, n - 1);
            assert(seq![t[0]] + v1 =~= v);
        }
    }
}

/// Relies on String::push: appends the given character to the end of the string.
#[verifier::external_body]
pub(crate) fn push_char(s: &mut String, c: char)
    ensures
        final(s)@ == old(s)@ + seq![c],
{
    s.push(c);
}

/// Appends the escaped form of `v` to `out`.
pub fn append_escaped(out: &mut String, v: &str)
    ensures
        final(out)@ == old(out)@ + esc(v@),
{
    let len: usize = v.unicode_len();
    let mut i: usize = 0;
    proof {
        assert(v@.subrange(0, 0) =~= Seq::empty());
        assert(out@ + esc(v@.subrange(0, 0)) =~= out@);
    }
    while i < len
        invariant
            i <= len,
            len == v@.len(),
            out@ == old(out)@ + esc(v@.subrange(0, i as int)),
        decreases len - i,
    {
        let c = v.get_char(i);
        proof {
            lemma_esc_snoc(v@.subrange(0, i as int), c);
            assert(v@.subrange(0, i as int).push(c) =~= v@.subrange(0, i as int + 1));
        }
        if c == '"' || c == '\\' {
            push_char(out, '\\');
            push_char(out, c);
            proof {
                assert(out@ =~= old(out)@ + esc(v@.subrange(0, i as int + 1)));
            }
        } else if (c as u32) < 0x20 {
            let code: u8 = (c as u32) as u8;
            push_char(out, '\\');
            push_char(out, 'u');
            push_char(out, '0');
            push_char(out, '0');
            push_char(out, crate::hexenc::hex_digit_char(code / 16));
            push_char(out, crate::hexenc::hex_digit_char(code % 16));
            proof {
                assert(code as int == c as int);
                assert(out@ =~= old(out)@ + esc(v@.subrange(0, i as int + 1)));
            }
        } else {
            push_char(out, c);
            proof {
                assert(out@ =~= old(out)@ + esc(v@.subrange(0, i as int + 1)));
            }
        }
        i = i + 1;
    }
    proof {
        assert(v@.subrange(0, len as int) =~= v@);
    }
}

/// Appends the quoted, escaped form of `v` to `out`.
pub fn append_quoted(out: &mut String, v: &str)
    ensures
        final(out)@ == old(out)@ + jstr(v@),
{
    push_char(out, '"');
    append_escaped(out, v);
    push_char(out, '"');
    proof {
        assert(out@ =~= old(out)@ + jstr(v@));
    }
}

/// Whether the characters of `pat` stand in `s` starting at position `i`.
pub fn match_at(s: &str, i: usize, pat: &str) -> (r: bool)
    requires
        i <= s@.len(),
    ensures
        r == (i + pat@.len() <= s@.len() && s@.subrange(
            i as int,
            i as int + pat@.len(),
        ) == pat@),
{
    let slen: usize = s.unicode_len();
    let plen: usize = pat.unicode_len();
    if plen > slen - i {
        return false;
    }
    let mut j: usize = 0;
    while j < plen
        invariant
            j <= plen,
            i + plen <= slen,
            slen == s@.len(),
            plen == pat@.len(),
            forall|k: int| 0 <= k < j ==> s@[i + k] == pat@[k],
        decreases plen - j,
    {
        if s.get_char(i + j) != pat.get_char(j) {
            proof {
                assert(s@.subrange(i as int, i as int + pat@.len())[j as int] != pat@[j as int]);
            }
            return false;
        }
        j = j + 1;
    }
    proof {
        assert(s@.subrange(i as int, i as int + pat@.len()) =~= pat@);
    }
    true
}

/// Whether two strings hold the same characters.
pub fn str_eq(a: &str, b: &str) -> (r: bool)
    ensures
        r == (a@ == b@),
{
    let alen: usize = a.unicode_len();
    let blen: usize = b.unicode_len();
    if alen != blen {
        proof {
            assert(a@.len() != b@.len());
        }
        return false;
    }
    let r = match_at(a, 0, b);
    proof {
        assert(a@.subrange(0, 0 + b@.len() as int) =~= a@);
    }
    r
}

/// The value of a lower-case hexadecimal digit character.
fn hex_nibble(c: char) -> (r: Option<u8>)
    ensures
        match r {
            Some(v) => hex_val(c) == v as int && v < 16,
            None => hex_val(c) < 0,
        },
{
    if c == '0' {
        Some(0)
    } else if c == '1' {
        Some(1)
    } else if c == '2' {
        Some(2)
    } else if c == '3' {
        Some(3)
    } else if c == '4' {
        Some(4)
    } else if c == '5' {
        Some(5)
    } else if c == '6' {
        Some(6)
    } else if c == '7' {
        Some(7)
    } else if c == '8' {
        Some(8)
    } else if c == '9' {
        Some(9)
    } else if c == 'a' {
        Some(10)
    } else if c == 'b' {
        Some(11)
    } else if c == 'c' {
        Some(12)
    } else if c == 'd' {
        Some(13)
    } else if c == 'e' {
        Some(14)
    } else if c == 'f' {
        Some(15)
    } else {
        None
    }
}

/// Parses the body of a quoted string inside `s`, starting at `start` (just
/// after the opening quote). On success it returns the decoded content and
/// the position just after the closing quote.
pub fn parse_string_body(s: &str, start: usize) -> (r: Option<(String, usize)>)
    requires
        start <= s@.len(),
    ensures
        match r {
            Some(p) => {
                &&& start < p.1 <= s@.len()
                &&& scan_str(s@.subrange(start as int, s@.len() as int)) == Some(
                    (p.0@, p.1 - start as int),
                )
            },
            None => scan_str(s@.subrange(start as int, s@.len() as int)) is None,
        },
{
    let ghost t0 = s@.subrange(start as int, s@.len() as int);
    let len: usize = s.unicode_len();
    let mut i: usize = start;
    let mut out = String::new();
    while i < len
        invariant
            start <= i <= len,
            len == s@.len(),
            ({
                let ti = s@.subrange(i as int, s@.len() as int);
                match scan_str(ti) {
                    Some(p) => scan_str(t0) == Some((out@ + p.0, i - start + p.1)),
                    None => scan_str(t0) is None,
                }
            }),
            t0 == s@.subrange(start as int, s@.len() as int),
        decreases len - i,
    {
        let ghost ti = s@.subrange(i as int, s@.len() as int);
        let c = s.get_char(i);
        proof {
            assert(ti[0] == c);
            assert(ti.len() > 0);
        }
        if c == '"' {
            proof {
                assert(scan_str(ti) == Some((Seq::<char>::empty(), 1int)));
                assert(out@ + Seq::<char>::empty() =~= out@);
            }
            return Some((out, i + 1));
        } else if c == '\\' {
            if i + 1 < len {
                let d = s.get_char(i + 1);
                proof {
                    assert(ti[1] == d);
                }
                if d == '"' || d == '\\' {
                    proof {
                        assert(ti.subrange(2, ti.len() as int) =~= s@.subrange(
                            i + 2,
                            s@.len() as int,
                        ));
                        let tn = s@.subrange(i + 2, s@.len() as int);
                        if scan_str(tn) is Some {
                            let p = scan_str(tn).unwrap();
                            assert(scan_str(ti) == Some((seq![d] + p.0, p.1 + 2)));
                            assert(out@ + (seq![d] + p.0) =~= (out@ + seq![d]) + p.0);
                        }
                    }
                    push_char(&mut out, d);
                    i = i + 2;
                } else if d == 'u' && len - i > 5 {
                    let c2 = s.get_char(i + 2);
                    let c3 = s.get_char(i + 3);
                    let h4 = hex_nibble(s.get_char(i + 4));
                    let h5 = hex_nibble(s.get_char(i + 5));
                    proof {
                        assert(ti[2] == s@[i + 2]);
                        assert(ti[3] == s@[i + 3]);
                        assert(ti[4] == s@[i + 4]);
                        assert(ti[5] == s@[i + 5]);
                    }
                    if c2 != '0' || c3 != '0' {
                        proof {
                            assert(scan_str(ti) is None);
                        }
                        return None;
                    }
                    match (h4, h5) {
                        (Some(a), Some(b)) => {
                            let code: u16 = (a as u16) * 16 + (b as u16);
                            if code < 0x20 {
                                let ch = (code as u8) as char;
                                proof {
                                    let nv = hex_val(ti[4]) * 16 + hex_val(ti[5]);
                                    assert(nv == code as int);
                                    assert(ch as int == nv);
                                    assert(seq![ch] =~= seq![nv as char]);
                                    assert(ti.subrange(6, ti.len() as int) =~= s@.subrange(
                                        i + 6,
                                        s@.len() as int,
                                    ));
                                    let tn = s@.subrange(i + 6, s@.len() as int);
                                    if scan_str(tn) is Some {
                                        let p = scan_str(tn).unwrap();
                                        assert(scan_str(ti) == Some((seq![nv as char] + p.0, p.1
                                            + 6)));
                                        assert(out@ + (seq![ch] + p.0) =~= (out@ + seq![ch])
                                            + p.0);
                                    }
                                }
                                push_char(&mut out, ch);
                                i = i + 6;
                            } else {
                                proof {
                                    assert(scan_str(ti) is None);
                                }
                                return None;
                            }
                        },
                        _ => {
                            proof {
                                assert(scan_str(ti) is None);
                            }
                            return None;
                        },
                    }
                } else {
                    proof {
                        assert(scan_str(ti) is None);
                    }
                    return None;
                }
            } else {
                proof {
                    assert(ti.len() == 1);
                    assert(scan_str(ti) is None);
                }
                return None;
            }
        } else if (c as u32) < 0x20 {
            proof {
                assert(scan_str(ti) is None);
            }
            return None;
        } else {
            proof {
                assert(ti.subrange(1, ti.len() as int) =~= s@.subrange(i + 1, s@.len() as int));
                let tn = s@.subrange(i + 1, s@.len() as int);
                if scan_str(tn) is Some {
                    let p = scan_str(tn).unwrap();
                    assert(scan_str(ti) == Some((seq![c] + p.0, p.1 + 1)));
                    assert(out@ + (seq![c] + p.0) =~= (out@ + seq![c]) + p.0);
                }
            }
            push_char(&mut out, c);
            i = i + 1;
        }
    }
    proof {
        assert(s@.subrange(i as int, s@.len() as int).len() == 0);
    }
    None
}

/// A flat object holding one string field: `{"key":"value"}` with the value
/// escaped.
pub open spec fn obj1(k: Seq<char>, v: Seq<char>) -> Seq<char> {
    seq!['{', '"'] + k + seq!['"', ':'] + jstr(v) + seq!['}']
}

/// A flat object holding two string fields, in order.
pub open spec fn obj2(k1: Seq<char>, v1: Seq<char>, k2: Seq<char>, v2: Seq<char>) -> Seq<char> {
    seq!['{', '"'] + k1 + seq!['"', ':'] + jstr(v1) + seq![',', '"'] + k2 + seq!['"', ':'] + jstr(
        v2,
    ) + seq!['}']
}

/// Builds the one-field object text.
pub fn build_obj1(key: &str, value: &str) -> (r: String)
    ensures
        r@ == obj1(key@, value@),
{
    let mut out = String::new();
    push_char(&mut out, '{');
    push_char(&mut out, '"');
    out.append(key);
    push_char(&mut out, '"');
    push_char(&mut out, ':');
    append_quoted(&mut out, value);
    push_char(&mut out, '}');
    proof {
        assert(out@ =~= obj1(key@, value@));
    }
    out
}

/// Builds the two-field object text.
pub fn build_obj2(key1: &str, value1: &str, key2: &str, value2: &str) -> (r: String)
    ensures
        r@ == obj2(key1@, value1@, key2@, value2@),
{
    let mut out = String::new();
    push_char(&mut out, '{');
    push_char(&mut out, '"');
    out.append(key1);
    push_char(&mut out, '"');
    push_char(&mut out, ':');
    append_quoted(&mut out, value1);
    push_char(&mut out, ',');
    push_char(&mut out, '"');
    out.append(key2);
    push_char(&mut out, '"');
    push_char(&mut out, ':');
    append_quoted(&mut out, value2);
    push_char(&mut out, '}');
    proof {
        assert(out@ =~= obj2(key1@, value1@, key2@, value2@));
    }
    out
}

/// Parses the one-field object form exactly: succeeds on precisely the texts
/// that `obj1(key, v)` produces, and then returns that `v`.
pub fn parse_obj1(s: &str, key: &str) -> (r: Option<String>)
    ensures
        r matches Some(v) ==> s@ == obj1(key@, v@),
        r is None ==> forall|v: Seq<char>| s@ != obj1(key@, v),
{
    let ghost kk = key@;
    let mut pre = String::new();
    push_char(&mut pre, '{');
    push_char(&mut pre, '"');
    pre.append(key);
    push_char(&mut pre, '"');
    push_char(&mut pre, ':');
    push_char(&mut pre, '"');
    let ghost pp = seq!['{', '"'] + kk + seq!['"', ':', '"'];
    proof {
        assert(pre@ =~= pp);
        assert forall|v: Seq<char>| #[trigger] obj1(kk, v) =~= pp + esc(v) + seq!['"', '}'] by {
            assert(obj1(kk, v) =~= pp + esc(v) + seq!['"', '}']);
        }
    }
    let len: usize = s.unicode_len();
    let i0: usize = pre.as_str().unicode_len();
    proof {
        assert(i0 == pp.len());
    }
    if !match_at(s, 0, pre.as_str()) {
        proof {
            assert forall|v: Seq<char>| s@ != obj1(kk, v) by {
                if s@ == obj1(kk, v) {
                    assert(s@.len() == pp.len() + esc(v).len() + 2);
                    assert(s@.subrange(0, 0 + pre@.len() as int) =~= pp);
                }
            }
        }
        return None;
    }
    let ghost tt = s@.subrange(i0 as int, s@.len() as int);
    match parse_string_body(s, i0) {
        None => {
            proof {
                assert forall|v: Seq<char>| s@ != obj1(kk, v) by {
                    if s@ == obj1(kk, v) {
                        assert(tt =~= esc(v) + seq!['"', '}']);
                        assert(tt.subrange(0, tt.len() - 1) =~= esc(v) + seq!['"']);
                        lemma_scan_str_complete(tt, v, tt.len() - 1);
                    }
                }
            }
            None
        },
        Some((v0, e)) => {
            proof {
                lemma_scan_str_sound(tt);
            }
            if e < len && e + 1 == len && s.get_char(e) == '}' {
                proof {
                    assert(tt.subrange(0, e - i0) == esc(v0@) + seq!['"']);
                    assert(s@.subrange(i0 as int, e as int) =~= tt.subrange(0, e - i0));
                    assert(s@ =~= s@.subrange(0, i0 as int) + s@.subrange(i0 as int, e as int)
                        + s@.subrange(e as int, s@.len() as int));
                    assert(s@.subrange(0, 0 + pre@.len() as int) == pre@);
                    assert(s@.subrange(e as int, s@.len() as int) =~= seq!['}']);
                    assert(s@ =~= pp + esc(v0@) + seq!['"', '}']);
                    assert(s@ == obj1(kk, v0@));
                }
                Some(v0)
            } else {
                proof {
                    assert forall|v: Seq<char>| s@ != obj1(kk, v) by {
                        if s@ == obj1(kk, v) {
                            assert(tt =~= esc(v) + seq!['"', '}']);
                            assert(tt.subrange(0, tt.len() - 1) =~= esc(v) + seq!['"']);
                            lemma_scan_str_complete(tt, v, tt.len() - 1);
                            assert(v0@ == v && e - i0 == tt.len() - 1);
                            assert(e + 1 == s@.len());
                            assert(s@[e as int] == (pp + esc(v) + seq!['"', '}'])[e as int]);
                            assert(s@[e as int] == '}');
                        }
                    }
                }
                None
            }
        },
    }
}

/// Parses the two-field object form exactly: succeeds on precisely the texts
/// that `obj2(key1, a, key2, b)` produces, and then returns `(a, b)`.
#[verifier::rlimit(100)]
#[verifier::spinoff_prover]
pub fn parse_obj2(s: &str, key1: &str, key2: &str) -> (r: Option<(String, String)>)
    ensures
        r matches Some(p) ==> s@ == obj2(key1@, p.0@, key2@, p.1@),
        r is None ==> forall|v1: Seq<char>, v2: Seq<char>| s@ != obj2(key1@, v1, key2@, v2),
{
    let ghost kk1 = key1@;
    let ghost kk2 = key2@;
    let mut pre = String::new();
    push_char(&mut pre, '{');
    push_char(&mut pre, '"');
    pre.append(key1);
    push_char(&mut pre, '"');
    push_char(&mut pre, ':');
    push_char(&mut pre, '"');
    let mut mid = String::new();
    push_char(&mut mid, ',');
    push_char(&mut mid, '"');
    mid.append(key2);
    push_char(&mut mid, '"');
    push_char(&mut mid, ':');
    push_char(&mut mid, '"');
    let ghost pp = seq!['{', '"'] + kk1 + seq!['"', ':', '"'];
    let ghost mm = seq![',', '"'] + kk2 + seq!['"', ':', '"'];
    proof {
        assert(pre@ =~= pp);
        assert(mid@ =~= mm);
        assert forall|v1: Seq<char>, v2: Seq<char>| #[trigger] obj2(kk1, v1, kk2, v2) =~= pp + (
            esc(v1) + seq!['"']
        ) + mm + (esc(v2) + seq!['"']) + seq!['}'] by {
            assert(obj2(kk1, v1, kk2, v2) =~= pp + (esc(v1) + seq!['"']) + mm + (esc(v2)
                + seq!['"']) + seq!['}']);
        }
    }
    let len: usize = s.unicode_len();
    let i0: usize = pre.as_str().unicode_len();
    let mlen: usize = mid.as_str().unicode_len();
    proof {
        assert(i0 == pp.len());
        assert(mlen == mm.len());
    }
    if !match_at(s, 0, pre.as_str()) {
        proof {
            assert forall|v1: Seq<char>, v2: Seq<char>| s@ != obj2(kk1, v1, kk2, v2) by {
                if s@ == obj2(kk1, v1, kk2, v2) {
                    assert(s@.subrange(0, 0 + pre@.len() as int) =~= pp);
                }
            }
        }
        return None;
    }
    let ghost t1 = s@.subrange(i0 as int, s@.len() as int);
    let body1 = parse_string_body(s, i0);
    proof {
        lemma_scan_str_sound(t1);
        assert forall|v1: Seq<char>, v2: Seq<char>| s@ == obj2(kk1, v1, kk2, v2) implies scan_str(t1)
            == Some((v1, esc(v1).len() as int + 1)) by {
            if s@ == obj2(kk1, v1, kk2, v2) {
                let n1: int = esc(v1).len() as int + 1;
                assert(t1 =~= (esc(v1) + seq!['"']) + (mm + (esc(v2) + seq!['"']) + seq!['}']));
                assert(t1.subrange(0, n1) =~= esc(v1) + seq!['"']);
                lemma_scan_str_complete(t1, v1, n1);
            }
        }
    }
    match body1 {
        None => {
            return None;
        },
        Some((w1, e1)) => {
            if !match_at(s, e1, mid.as_str()) {
                proof {
                    assert forall|v1: Seq<char>, v2: Seq<char>| s@ != obj2(kk1, v1, kk2, v2) by {
                        if s@ == obj2(kk1, v1, kk2, v2) {
                            assert(w1@ == v1 && e1 - i0 == esc(v1).len() + 1);
                            assert(s@.subrange(e1 as int, e1 as int + mid@.len() as int) =~= mm);
                        }
                    }
                }
                return None;
            }
            let i1: usize = e1 + mlen;
            let ghost t2 = s@.subrange(i1 as int, s@.len() as int);
            let body2 = parse_string_body(s, i1);
            proof {
                lemma_scan_str_sound(t2);
                assert forall|v1: Seq<char>, v2: Seq<char>| s@ == obj2(kk1, v1, kk2, v2) implies
                    scan_str(t2) == Some((v2, esc(v2).len() as int + 1)) && s@.len() - 1 == i1
                    + esc(v2).len() + 1 by {
                    if s@ == obj2(kk1, v1, kk2, v2) {
                        assert(w1@ == v1 && e1 - i0 == esc(v1).len() + 1);
                        let n2: int = esc(v2).len() as int + 1;
                        assert(t2 =~= (esc(v2) + seq!['"']) + seq!['}']);
                        assert(t2.subrange(0, n2) =~= esc(v2) + seq!['"']);
                        lemma_scan_str_complete(t2, v2, n2);
                    }
                }
            }
            match body2 {
                None => {
                    return None;
                },
                Some((w2, e2)) => {
                    if e2 < len && e2 + 1 == len && s.get_char(e2) == '}' {
                        proof {
                            assert(t1.subrange(0, e1 - i0) == esc(w1@) + seq!['"']);
                            assert(s@.subrange(i0 as int, e1 as int) =~= t1.subrange(0, e1 - i0));
                            assert(t2.subrange(0, e2 - i1) == esc(w2@) + seq!['"']);
                            assert(s@.subrange(i1 as int, e2 as int) =~= t2.subrange(0, e2 - i1));
                            assert(s@.subrange(0, 0 + pre@.len() as int) == pre@);
                            assert(s@.subrange(e1 as int, e1 as int + mid@.len() as int) == mid@);
                            assert(s@.subrange(e2 as int, s@.len() as int) =~= seq!['}']);
                            assert(s@ =~= s@.subrange(0, i0 as int) + s@.subrange(
                                i0 as int,
                                e1 as int,
                            ) + s@.subrange(e1 as int, i1 as int) + s@.subrange(
                                i1 as int,
                                e2 as int,
                            ) + s@.subrange(e2 as int, s@.len() as int));
                            assert(s@ =~= pp + (esc(w1@) + seq!['"']) + mm + (esc(w2@) + seq!['"'])
                                + seq!['}']);
                            assert(s@ == obj2(kk1, w1@, kk2, w2@));
                        }
                        Some((w1, w2))
                    } else {
                        proof {
                            assert forall|v1: Seq<char>, v2: Seq<char>| s@ != obj2(
                                kk1,
                                v1,
                                kk2,
                                v2,
                            ) by {
                                if s@ == obj2(kk1, v1, kk2, v2) {
                                    assert(w2@ == v2 && e2 - i1 == esc(v2).len() + 1);
                                    assert(e2 + 1 == s@.len());
                                    assert(s@[e2 as int] == (pp + (esc(v1) + seq!['"']) + mm + (esc(
                                        v2,
                                    ) + seq!['"']) + seq!['}'])[e2 as int]);
                                    assert(s@[e2 as int] == '}');
                                }
                            }
                        }
                        None
                    }
                },
            }
        },
    }
}

/// Two one-field objects with the same key and equal text hold the same value.
pub proof fn lemma_obj1_injective(k: Seq<char>, v1: Seq<char>, v2: Seq<char>)
    requires
        obj1(k, v1) == obj1(k, v2),
    ensures
        v1 == v2,
{
    let pp = seq!['{', '"'] + k + seq!['"', ':', '"'];
    assert(obj1(k, v1) =~= pp + (esc(v1) + seq!['"', '}']));
    assert(obj1(k, v2) =~= pp + (esc(v2) + seq!['"', '}']));
    let t = obj1(k, v1).subrange(pp.len() as int, obj1(k, v1).len() as int);
    assert(t =~= esc(v1) + seq!['"', '}']);
    assert(t =~= esc(v2) + seq!['"', '}']);
    assert(t.subrange(0, esc(v1).len() as int + 1) =~= esc(v1) + seq!['"']);
    assert(t.subrange(0, esc(v2).len() as int + 1) =~= esc(v2) + seq!['"']);
    lemma_scan_str_complete(t, v1, esc(v1).len() as int + 1);
    lemma_scan_str_complete(t, v2, esc(v2).len() as int + 1);
}

/// Two two-field objects with the same keys and equal text hold the same
/// values.
#[verifier::rlimit(100)]
#[verifier::spinoff_prover]
pub proof fn lemma_obj2_injective(
    k1: Seq<char>,
    k2: Seq<char>,
    a1: Seq<char>,
    b1: Seq<char>,
    a2: Seq<char>,
    b2: Seq<char>,
)
    requires
        obj2(k1, a1, k2, b1) == obj2(k1, a2, k2, b2),
    ensures
        a1 == a2,
        b1 == b2,
{
    let pp = seq!['{', '"'] + k1 + seq!['"', ':', '"'];
    let mm = seq![',', '"'] + k2 + seq!['"', ':', '"'];
    assert(obj2(k1, a1, k2, b1) =~= pp + ((esc(a1) + seq!['"']) + mm + (esc(b1) + seq!['"'])
        + seq!['}']));
    assert(obj2(k1, a2, k2, b2) =~= pp + ((esc(a2) + seq!['"']) + mm + (esc(b2) + seq!['"'])
        + seq!['}']));
    let t = obj2(k1, a1, k2, b1).subrange(pp.len() as int, obj2(k1, a1, k2, b1).len() as int);
    assert(t =~= (esc(a1) + seq!['"']) + (mm + (esc(b1) + seq!['"']) + seq!['}']));
    assert(t =~= (esc(a2) + seq!['"']) + (mm + (esc(b2) + seq!['"']) + seq!['}']));
    let n1: int = esc(a1).len() as int + 1;
    let n2: int = esc(a2).len() as int + 1;
    assert(t.subrange(0, n1) =~= esc(a1) + seq!['"']);
    assert(t.subrange(0, n2) =~= esc(a2) + seq!['"']);
    lemma_scan_str_complete(t, a1, n1);
    lemma_scan_str_complete(t, a2, n2);
    assert(a1 == a2 && n1 == n2);
    let u = t.subrange(n1 + mm.len() as int, t.len() as int);
    assert(u =~= esc(b1) + seq!['"', '}']);
    assert(u =~= esc(b2) + seq!['"', '}']) by {
        assert(forall|j: int|
            0 <= j < u.len() ==> #[trigger] u[j] == ((esc(a2) + seq!['"']) + (mm + (esc(b2)
                + seq!['"']) + seq!['}']))[j + n1 + mm.len()]);
    }
    assert(u.subrange(0, esc(b1).len() as int + 1) =~= esc(b1) + seq!['"']);
    assert(u.subrange(0, esc(b2).len() as int + 1) =~= esc(b2) + seq!['"']);
    lemma_scan_str_complete(u, b1, esc(b1).len() as int + 1);
    lemma_scan_str_complete(u, b2, esc(b2).len() as int + 1);
}

/// A JSON whitespace character.
pub open spec fn is_ws(c: char) -> bool {
    c == ' ' || c == '\t' || c == '\n' || c == '\r'
}

/// The first position at or after `i` that does not hold whitespace.
pub open spec fn ws_end(t: Seq<char>, i: int) -> int
    decreases t.len() - i,
{
    if 0 <= i < t.len() && is_ws(t[i]) {
        ws_end(t, i + 1)
    } else {
        i
    }
}


/// Skips whitespace: returns the first position at or after `i` that does
/// not hold whitespace.
pub fn skip_ws(s: &str, i: usize) -> (r: usize)
    requires
        i <= s@.len(),
    ensures
        r == ws_end(s@, i as int),
        i <= r <= s@.len(),
{
    let len: usize = s.unicode_len();
    let mut j: usize = i;
    while j < len
        invariant
            i <= j <= len,
            len == s@.len(),
            ws_end(s@, i as int) == ws_end(s@, j as int),
        decreases len - j,
    {
        let c = s.get_char(j);
        if c == ' ' || c == '\t' || c == '\n' || c == '\r' {
            proof {
                assert(ws_end(s@, j as int) == ws_end(s@, j + 1));
            }
            j = j + 1;
        } else {
            proof {
                assert(ws_end(s@, j as int) == j as int);
            }
            return j;
        }
    }
    proof {
        assert(ws_end(s@, j as int) == j as int);
    }
    j
}

/// The value of a hexadecimal digit character of either case, or a negative
/// number for any other character.
pub open spec fn hx(c: char) -> int {
    if hex_val(c) >= 0 {
        hex_val(c)
    } else if c == 'A' {
        10
    } else if c == 'B' {
        11
    } else if c == 'C' {
        12
    } else if c == 'D' {
        13
    } else if c == 'E' {
        14
    } else if c == 'F' {
        15
    } else {
        -1
    }
}

/// The value of the four hexadecimal digits at position `i`, or a negative
/// number where one of them is not a digit.
pub open spec fn hex4(t: Seq<char>, i: int) -> int {
    if 0 <= i && i + 4 <= t.len() && hx(t[i]) >= 0 && hx(t[i + 1]) >= 0 && hx(t[i + 2]) >= 0
        && hx(t[i + 3]) >= 0 {
        hx(t[i]) * 4096 + hx(t[i + 1]) * 256 + hx(t[i + 2]) * 16 + hx(t[i + 3])
    } else {
        -1
    }
}

/// The character a short escape letter stands for.
pub open spec fn short_escape(d: char) -> char {
    if d == 'b' {
        8 as char
    } else if d == 'f' {
        12 as char
    } else if d == 'n' {
        10 as char
    } else if d == 'r' {
        13 as char
    } else {
        9 as char
    }
}

/// Scanner for the body of a JSON string in its interchange form: the full
/// escape set, four-digit unicode escapes and surrogate pairs included. The
/// input starts just after the opening quote; on success it yields the
/// decoded content and the number of characters consumed, the closing quote
/// included.
pub open spec fn scan_jstr(t: Seq<char>) -> Option<(Seq<char>, int)>
    decreases t.len(),
{
    if t.len() == 0 {
        None
    } else if t[0] == '"' {
        Some((Seq::empty(), 1))
    } else if t[0] == '\\' {
        if t.len() < 2 {
            None
        } else if t[1] == '"' || t[1] == '\\' || t[1] == '/' {
            match scan_jstr(t.subrange(2, t.len() as int)) {
                Some(p) => Some((seq![t[1]] + p.0, p.1 + 2)),
                None => None,
            }
        } else if t[1] == 'b' || t[1] == 'f' || t[1] == 'n' || t[1] == 'r' || t[1] == 't' {
            match scan_jstr(t.subrange(2, t.len() as int)) {
                Some(p) => Some((seq![short_escape(t[1])] + p.0, p.1 + 2)),
                None => None,
            }
        } else if t[1] == 'u' {
            if hex4(t, 2) >= 0 {
                let n = hex4(t, 2);
                if 0xD800 <= n && n < 0xDC00 {
                    if t.len() >= 12 && t[6] == '\\' && t[7] == 'u' && 0xDC00 <= hex4(t, 8)
                        && hex4(t, 8) < 0xE000 {
                        match scan_jstr(t.subrange(12, t.len() as int)) {
                            Some(p) => Some(
                                (
                                    seq![(0x10000 + (n - 0xD800) * 0x400 + (hex4(t, 8)
                                        - 0xDC00)) as char] + p.0,
                                    p.1 + 12,
                                ),
                            ),
                            None => None,
                        }
                    } else {
                        None
                    }
                } else if 0xDC00 <= n && n < 0xE000 {
                    None
                } else {
                    match scan_jstr(t.subrange(6, t.len() as int)) {
                        Some(p) => Some((seq![n as char] + p.0, p.1 + 6)),
                        None => None,
                    }
                }
            } else {
                None
            }
        } else {
            None
        }
    } else if (t[0] as int) < 0x20 {
        None
    } else {
        match scan_jstr(t.subrange(1, t.len() as int)) {
            Some(p) => Some((seq![t[0]] + p.0, p.1 + 1)),
            None => None,
        }
    }
}


/// A character is its own code point.
pub proof fn lemma_char_code(c: char)
    ensures
        ((c as int) as char) == c,
{
}

/// Relies on char::from_u32: it returns the character with the given code
/// point exactly when that value is a Unicode scalar value.
pub assume_specification[ char::from_u32 ](i: u32) -> (r: Option<char>)
    ensures
        r matches Some(c) ==> c as u32 == i,
        (i < 0xD800 || (0xE000 <= i && i <= 0x10FFFF)) <==> r is Some,
;

/// The value of a hexadecimal digit character of either case.
fn hex_nibble_ci(c: char) -> (r: Option<u8>)
    ensures
        match r {
            Some(v) => hx(c) == v as int && v < 16,
            None => hx(c) < 0,
        },
{
    match hex_nibble(c) {
        Some(v) => Some(v),
        None => {
            if c == 'A' {
                Some(10)
            } else if c == 'B' {
                Some(11)
            } else if c == 'C' {
                Some(12)
            } else if c == 'D' {
                Some(13)
            } else if c == 'E' {
                Some(14)
            } else if c == 'F' {
                Some(15)
            } else {
                None
            }
        },
    }
}

/// Reads the four hexadecimal digits at position `i`.
fn read_hex4(s: &str, i: usize) -> (r: Option<u16>)
    requires
        i <= s@.len(),
    ensures
        match r {
            Some(v) => hex4(s@, i as int) == v as int,
            None => hex4(s@, i as int) < 0,
        },
{
    let len: usize = s.unicode_len();
    if len - i < 4 {
        return None;
    }
    let h0 = hex_nibble_ci(s.get_char(i));
    let h1 = hex_nibble_ci(s.get_char(i + 1));
    let h2 = hex_nibble_ci(s.get_char(i + 2));
    let h3 = hex_nibble_ci(s.get_char(i + 3));
    match (h0, h1, h2, h3) {
        (Some(a), Some(b), Some(c), Some(d)) => Some(
            (a as u16) * 4096 + (b as u16) * 256 + (c as u16) * 16 + (d as u16),
        ),
        _ => None,
    }
}

/// Parses the body of a JSON string in its interchange form inside `s`,
/// starting at `start` (just after the opening quote). On success it returns
/// the decoded content and the position just after the closing quote.
#[verifier::rlimit(100)]
#[verifier::spinoff_prover]
pub fn parse_jstr(s: &str, start: usize) -> (r: Option<(String, usize)>)
    requires
        start <= s@.len(),
    ensures
        match r {
            Some(p) => {
                &&& start < p.1 <= s@.len()
                &&& scan_jstr(s@.subrange(start as int, s@.len() as int)) == Some(
                    (p.0@, p.1 - start as int),
                )
            },
            None => scan_jstr(s@.subrange(start as int, s@.len() as int)) is None,
        },
{
    let ghost t0 = s@.subrange(start as int, s@.len() as int);
    let len: usize = s.unicode_len();
    let mut i: usize = start;
    let mut out = String::new();
    while i < len
        invariant
            start <= i <= len,
            len == s@.len(),
            ({
                let ti = s@.subrange(i as int, s@.len() as int);
                match scan_jstr(ti) {
                    Some(p) => scan_jstr(t0) == Some((out@ + p.0, i - start + p.1)),
                    None => scan_jstr(t0) is None,
                }
            }),
            t0 == s@.subrange(start as int, s@.len() as int),
        decreases len - i,
    {
        let ghost ti = s@.subrange(i as int, s@.len() as int);
        let c = s.get_char(i);
        proof {
            assert(ti[0] == c);
        }
        if c == '"' {
            proof {
                assert(scan_jstr(ti) == Some((Seq::<char>::empty(), 1int)));
                assert(out@ + Seq::<char>::empty() =~= out@);
            }
            return Some((out, i + 1));
        } else if c == '\\' {
            if len - i < 2 {
                proof {
                    assert(ti.len() == 1);
                    assert(scan_jstr(ti) is None);
                }
                return None;
            }
            let d = s.get_char(i + 1);
            proof {
                assert(ti[1] == d);
            }
            if d == '"' || d == '\\' || d == '/' || d == 'b' || d == 'f' || d == 'n' || d == 'r'
                || d == 't' {
                let ch = if d == 'b' {
                    (8u8) as char
                } else if d == 'f' {
                    (12u8) as char
                } else if d == 'n' {
                    '\n'
                } else if d == 'r' {
                    '\r'
                } else if d == 't' {
                    '\t'
                } else {
                    d
                };
                proof {
                    if d == 'b' || d == 'f' || d == 'n' || d == 'r' || d == 't' {
                        lemma_char_code(ch);
                        lemma_char_code(short_escape(d));
                        assert(ch == short_escape(d));
                    }
                    assert(ti.subrange(2, ti.len() as int) =~= s@.subrange(
                        i + 2,
                        s@.len() as int,
                    ));
                    let tn = s@.subrange(i + 2, s@.len() as int);
                    if scan_jstr(tn) is Some {
                        let p = scan_jstr(tn).unwrap();
                        assert(scan_jstr(ti) == Some((seq![ch] + p.0, p.1 + 2)));
                        assert(out@ + (seq![ch] + p.0) =~= (out@ + seq![ch]) + p.0);
                    }
                }
                push_char(&mut out, ch);
                i = i + 2;
            } else if d == 'u' {
                let h = read_hex4(s, i + 2);
                proof {
                    assert forall|k: int| 0 <= k < ti.len() implies #[trigger] ti[k] == s@[i
                        + k] by {}
                    assert(hex4(ti, 2) == hex4(s@, i + 2));
                }
                match h {
                    None => {
                        proof {
                            assert(scan_jstr(ti) is None);
                        }
                        return None;
                    },
                    Some(n) => {
                        if 0xD800 <= n && n < 0xDC00 {
                            if len - i < 12 {
                                proof {
                                    assert(ti.len() < 12);
                                    assert(scan_jstr(ti) is None);
                                }
                                return None;
                            }
                            let e6 = s.get_char(i + 6);
                            let e7 = s.get_char(i + 7);
                            proof {
                                assert(ti[6] == e6 && ti[7] == e7);
                            }
                            if e6 != '\\' || e7 != 'u' {
                                proof {
                                    assert(scan_jstr(ti) is None);
                                }
                                return None;
                            }
                            let h2 = read_hex4(s, i + 8);
                            proof {
                                assert(hex4(ti, 8) == hex4(s@, i + 8));
                            }
                            let m = match h2 {
                                Some(m) => m,
                                None => {
                                    proof {
                                        assert(scan_jstr(ti) is None);
                                    }
                                    return None;
                                },
                            };
                            if !(0xDC00 <= m && m < 0xE000) {
                                proof {
                                    assert(scan_jstr(ti) is None);
                                }
                                return None;
                            }
                            let code: u32 = 0x10000 + ((n as u32) - 0xD800) * 0x400 + ((m as u32)
                                - 0xDC00);
                            match char::from_u32(code) {
                                Some(ch) => {
                                    proof {
                                        let nv = 0x10000 + (hex4(ti, 2) - 0xD800) * 0x400 + (
                                        hex4(ti, 8) - 0xDC00);
                                        assert(nv == code as int);
                                        lemma_char_bound(ch);
                                        assert(ch as u32 == code);
                                        assert((ch as u32) as int == ch as int);
                                        assert(ch as int == code as int);
                                        lemma_char_code(ch);
                                        assert(ch == nv as char);
                                        assert(ti.subrange(12, ti.len() as int) =~= s@.subrange(
                                            i + 12,
                                            s@.len() as int,
                                        ));
                                        let tn = s@.subrange(i + 12, s@.len() as int);
                                        if scan_jstr(tn) is Some {
                                            let p = scan_jstr(tn).unwrap();
                                            assert(scan_jstr(ti) == Some((seq![nv as char] + p.0,
                                                p.1 + 12)));
                                            assert(out@ + (seq![ch] + p.0) =~= (out@ + seq![ch])
                                                + p.0);
                                        }
                                    }
                                    push_char(&mut out, ch);
                                    i = i + 12;
                                },
                                None => {
                                    proof {
                                        assert(false);
                                    }
                                    return None;
                                },
                            }
                        } else if 0xDC00 <= n && n < 0xE000 {
                            proof {
                                assert(scan_jstr(ti) is None);
                            }
                            return None;
                        } else {
                            match char::from_u32(n as u32) {
                                Some(ch) => {
                                    proof {
                                        lemma_char_bound(ch);
                                        assert(ch as u32 == n as u32);
                                        assert((ch as u32) as int == ch as int);
                                        assert((n as u32) as int == n as int);
                                        assert(ch as int == n as int);
                                        lemma_char_code(ch);
                                        assert(ch == hex4(ti, 2) as char);
                                        assert(ti.subrange(6, ti.len() as int) =~= s@.subrange(
                                            i + 6,
                                            s@.len() as int,
                                        ));
                                        let tn = s@.subrange(i + 6, s@.len() as int);
                                        if scan_jstr(tn) is Some {
                                            let p = scan_jstr(tn).unwrap();
                                            assert(scan_jstr(ti) == Some((seq![hex4(ti, 2)
                                                as char] + p.0, p.1 + 6)));
                                            assert(out@ + (seq![ch] + p.0) =~= (out@ + seq![ch])
                                                + p.0);
                                        }
                                    }
                                    push_char(&mut out, ch);
                                    i = i + 6;
                                },
                                None => {
                                    proof {
                                        assert(false);
                                    }
                                    return None;
                                },
                            }
                        }
                    },
                }
            } else {
                proof {
                    assert(scan_jstr(ti) is None);
                }
                return None;
            }
        } else if (c as u32) < 0x20 {
            proof {
                lemma_char_code(c);
                assert(scan_jstr(ti) is None);
            }
            return None;
        } else {
            proof {
                lemma_char_code(c);
                assert(ti.subrange(1, ti.len() as int) =~= s@.subrange(i + 1, s@.len() as int));
                let tn = s@.subrange(i + 1, s@.len() as int);
                if scan_jstr(tn) is Some {
                    let p = scan_jstr(tn).unwrap();
                    assert(scan_jstr(ti) == Some((seq![c] + p.0, p.1 + 1)));
                    assert(out@ + (seq![c] + p.0) =~= (out@ + seq![c]) + p.0);
                }
            }
            push_char(&mut out, c);
            i = i + 1;
        }
    }
    proof {
        assert(s@.subrange(i as int, s@.len() as int).len() == 0);
    }
    None
}

} // verus!
