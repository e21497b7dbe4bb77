//! Character and string helpers: ASCII case folding for attribute keys,
//! decimal rendering of ports, and address-list formatting.

use vstd::prelude::*;

verus! {

/// ASCII lower-casing of a single character; anything outside 'A'..'Z' is kept.
pub open spec fn lower_char(c: char) -> char {
    if 65 <= c as u32 && c as u32 <= 90 {
        ((c as u32 + 32) as u8) as char
    } else {
        c
    }
}

/// ASCII lower-casing of a whole character sequence.
pub open spec fn lower_seq(s: Seq<char>) -> Seq<char> {
    s.map_values(|c: char| lower_char(c))
}

/// Two keys are the same attribute key when they agree up to ASCII case.
pub open spec fn ci_eq(a: Seq<char>, b: Seq<char>) -> bool {
    lower_seq(a) == lower_seq(b)
}

/// ASCII lower-casing, executable form.
pub fn lower_char_x(c: char) -> (r: char)
    ensures
        r == lower_char(c),
{
    let u = c as u32;
    if 65 <= u && u <= 90 {
        ((u + 32) as u8) as char
    } else {
        c
    }
}

/// Case-insensitive equality of two strings, ASCII folding only.
pub fn eq_ignore_case(a: &str, b: &str) -> (r: bool)
    ensures
        r == ci_eq(a@, b@),
{
    let alen = a.unicode_len();
    let blen = b.unicode_len();
    if alen != blen {
        assert(lower_seq(a@).len() != lower_seq(b@).len());
        return false;
    }
    let mut i: usize = 0;
    while i < alen
        invariant
            alen == a@.len(),
            alen == b@.len(),
            i <= alen,
            forall|j: int| 0 <= j < i ==> lower_char(a@[j]) == lower_char(b@[j]),
        decreases alen - i,
    {
        let ca = a.get_char(i);
        let cb = b.get_char(i);
        if lower_char_x(ca) != lower_char_x(cb) {
            assert(lower_seq(a@)[i as int] != lower_seq(b@)[i as int]);
            return false;
        }
        i = i + 1;
    }
    assert(lower_seq(a@) =~= lower_seq(b@));
    true
}

/// The character for one decimal digit value.
pub open spec fn digit_char(d: int) -> char {
    ((48 + d) as u8) as char
}

/// The decimal rendering of a non-negative integer, most significant digit first.
pub open spec fn dec_digits(n: nat) -> Seq<char>
    decreases n,
{
    if n < 10 {
        seq![digit_char(n as int)]
    } else {
        dec_digits(n / 10).push(digit_char((n % 10) as int))
    }
}

/// Digit values collected least-significant first, read back as characters
/// from the last collected digit down.
pub open spec fn rev_chars(v: Seq<u8>) -> Seq<char>
    decreases v.len(),
{
    if v.len() == 0 {
        Seq::empty()
    } else {
        seq![digit_char(v.last() as int)] + rev_chars(v.drop_last())
    }
}

proof fn lemma_rev_chars_prepend(x: u8, v: Seq<u8>)
    ensures
        rev_chars(seq![x] + v) == rev_chars(v) + seq![digit_char(x as int)],
    decreases v.len(),
{
    if v.len() == 0 {
        assert(seq![x] + v =~= seq![x]);
        assert(seq![x].drop_last() =~= Seq::<u8>::empty());
        assert(rev_chars(seq![x]) == seq![digit_char(x as int)] + rev_chars(Seq::<u8>::empty()));
        assert(rev_chars(seq![x]) =~= rev_chars(v) + seq![digit_char(x as int)]);
    } else {
        assert((seq![x] + v).last() == v.last());
        assert((seq![x] + v).drop_last() =~= seq![x] + v.drop_last());
        lemma_rev_chars_prepend(x, v.drop_last());
        assert(rev_chars(seq![x] + v) =~= rev_chars(v) + seq![digit_char(x as int)]);
    }
}

/// One decimal digit as a string slice.
fn digit_str(d: u8) -> (r: &'static str)
    requires
        d < 10,
    ensures
        r@ == seq![digit_char(d as int)],
{
    proof {
        reveal_strlit("0");
        reveal_strlit("1");
        reveal_strlit("2");
        reveal_strlit("3");
        reveal_strlit("4");
        reveal_strlit("5");
        reveal_strlit("6");
        reveal_strlit("7");
        reveal_strlit("8");
        reveal_strlit("9");
    }
    match d {
        0 => "0",
        1 => "1",
        2 => "2",
        3 => "3",
        4 => "4",
        5 => "5",
        6 => "6",
        7 => "7",
        8 => "8",
        _ => "9",
    }
}

/// Renders a port number in decimal.
pub fn u16_to_dec(n: u16) -> (s: String)
    ensures
        s@ == dec_digits(n as nat),
{
    let mut digits: Vec<u8> = Vec::new();
    let d0: u8 = (n % 10) as u8;
    digits.push(d0);
    let mut m: u16 = n / 10;
    proof {
        assert(digits@.drop_last() =~= Seq::<u8>::empty());
        assert(rev_chars(Seq::<u8>::empty()) == Seq::<char>::empty());
        assert(rev_chars(digits@) =~= seq![digit_char(d0 as int)]);
        if n < 10 {
            assert(dec_digits(n as nat) =~= Seq::<char>::empty() + rev_chars(digits@));
        } else {
            assert(dec_digits(n as nat) == dec_digits((n / 10) as nat).push(
                digit_char((n % 10) as int),
            ));
            assert(dec_digits(n as nat) =~= dec_digits(m as nat) + rev_chars(digits@));
        }
    }
    while m > 0
        invariant
            dec_digits(n as nat) == (if m > 0 {
                dec_digits(m as nat)
            } else {
                Seq::<char>::empty()
            }) + rev_chars(digits@),
            forall|j: int| 0 <= j < digits@.len() ==> digits@[j] < 10,
        decreases m,
    {
        let d: u8 = (m % 10) as u8;
        let ghost old_digits = digits@;
        let ghost old_m = m;
        digits.push(d);
        m = m / 10;
        proof {
            assert(digits@.drop_last() =~= old_digits);
            assert(rev_chars(digits@) == seq![digit_char(d as int)] + rev_chars(old_digits));
            if old_m < 10 {
                assert(dec_digits(old_m as nat) == seq![digit_char(old_m as int)]);
                assert(dec_digits(n as nat) =~= Seq::<char>::empty() + rev_chars(digits@));
            } else {
                assert(dec_digits(old_m as nat) == dec_digits(m as nat).push(
                    digit_char(d as int),
                ));
                assert(dec_digits(n as nat) =~= dec_digits(m as nat) + rev_chars(digits@));
            }
        }
    }
    let mut s = String::new();
    let mut i: usize = digits.len();
    assert(digits@.subrange(i as int, digits@.len() as int) =~= Seq::<u8>::empty());
    while i > 0
        invariant
            i <= digits@.len(),
            dec_digits(n as nat) == Seq::<char>::empty() + rev_chars(digits@),
            s@ == rev_chars(digits@.subrange(i as int, digits@.len() as int)),
            forall|j: int| 0 <= j < digits@.len() ==> digits@[j] < 10,
        decreases i,
    {
        let d = digits[i - 1];
        s.append(digit_str(d));
        proof {
            let tail = digits@.subrange(i as int, digits@.len() as int);
            assert(digits@.subrange(i - 1, digits@.len() as int) =~= seq![digits@[i - 1]] + tail);
            lemma_rev_chars_prepend(digits@[i - 1], tail);
        }
        i = i - 1;
    }
    assert(digits@.subrange(0, digits@.len() as int) =~= digits@);
    assert(s@ =~= dec_digits(n as nat));
    s
}

/// An address and a port joined by a colon, as in the textual form of a socket address.
pub fn create_address_port_string(address: String, port: u16) -> (r: String)
    ensures
        r@ == address@ + seq![':'] + dec_digits(port as nat),
{
    proof {
        reveal_strlit(":");
        assert(":"@ =~= seq![':']);
    }
    let mut s = address;
    s.append(":");
    let p = u16_to_dec(port);
    s.append(p.as_str());
    s
}

/// The protocol's domain suffix for local service types.
pub open spec fn local_suffix() -> Seq<char> {
    seq!['.', 'l', 'o', 'c', 'a', 'l', '.']
}

/// Does the type name already carry the domain suffix?
pub open spec fn has_local_suffix(s: Seq<char>) -> bool {
    s.len() >= 7 && s.subrange(s.len() - 7, s.len() as int) == local_suffix()
}

/// The protocol-qualified service type: the domain suffix is appended to a
/// bare type and an already qualified type is kept as it is.
pub open spec fn qualified_type(s: Seq<char>) -> Seq<char> {
    if has_local_suffix(s) {
        s
    } else {
        s + local_suffix()
    }
}

/// The character at one position of the domain suffix.
fn local_suffix_char(k: usize) -> (c: char)
    requires
        k < 7,
    ensures
        c == local_suffix()[k as int],
{
    match k {
        0 => '.',
        1 => 'l',
        2 => 'o',
        3 => 'c',
        4 => 'a',
        5 => 'l',
        _ => '.',
    }
}

/// Does the string end in the domain suffix, executable form.
fn ends_with_local(s: &str) -> (r: bool)
    ensures
        r == has_local_suffix(s@),
{
    let len = s.unicode_len();
    if len < 7 {
        return false;
    }
    let start = len - 7;
    let ghost sub = s@.subrange(s@.len() - 7, s@.len() as int);
    let mut k: usize = 0;
    while k < 7
        invariant
            len == s@.len(),
            len >= 7,
            start == len - 7,
            sub == s@.subrange(s@.len() - 7, s@.len() as int),
            k <= 7,
            forall|j: int| 0 <= j < k ==> s@[start + j] == local_suffix()[j],
        decreases 7 - k,
    {
        if s.get_char(start + k) != local_suffix_char(k) {
            proof {
                assert(sub[k as int] == s@[start + k]);
                assert(sub != local_suffix());
            }
            return false;
        }
        k = k + 1;
    }
    proof {
        assert forall|j: int| 0 <= j < 7 implies sub[j] == local_suffix()[j] by {
            assert(sub[j] == s@[start + j]);
        }
        assert(sub =~= local_suffix());
    }
    true
}

/// Qualifies a service type with the domain suffix, executable form.
pub fn qualify_service_type(s: &str) -> (r: String)
    ensures
        r@ == qualified_type(s@),
{
    if ends_with_local(s) {
        s.to_owned()
    } else {
        proof {
            reveal_strlit(".local.");
            assert(".local."@ =~= local_suffix());
        }
        let mut r = s.to_owned();
        r.append(".local.");
        r
    }
}

/// A list of textual addresses joined by single commas, with no trailing comma.
pub open spec fn join_commas(parts: Seq<Seq<char>>) -> Seq<char>
    decreases parts.len(),
{
    if parts.len() == 0 {
        Seq::empty()
    } else if parts.len() == 1 {
        parts[0]
    } else {
        join_commas(parts.drop_last()) + seq![','] + parts.last()
    }
}

/// Joins the addresses with commas, e.g. for handing a client list to a sender.
pub fn concatenate_address_strings(addresses: Vec<String>) -> (r: String)
    ensures
        r@ == join_commas(addresses.deep_view()),
{
    proof {
        reveal_strlit(",");
        assert(","@ =~= seq![',']);
    }
    let ghost dv = addresses.deep_view();
    let mut s = String::new();
    let len = addresses.len();
    let mut i: usize = 0;
    while i < len
        invariant
            len == addresses@.len(),
            dv == addresses.deep_view(),
            dv.len() == len,
            forall|j: int| 0 <= j < len ==> dv[j] == addresses@[j]@,
            i <= len,
            s@ == join_commas(dv.subrange(0, i as int)) + (if 0 < i && i < len {
                seq![',']
            } else {
                Seq::<char>::empty()
            }),
            ","@ == seq![','],
        decreases len - i,
    {
        let a = &addresses[i];
        s.append(a.as_str());
        proof {
            let prefix = dv.subrange(0, i as int);
            let prefix1 = dv.subrange(0, i + 1);
            if i == 0 {
                assert(prefix1 =~= seq![dv[0]]);
                assert(join_commas(prefix1) == dv[0]);
                assert(s@ =~= join_commas(prefix1));
            } else {
                assert(prefix1.drop_last() =~= prefix);
                assert(prefix1.last() == dv[i as int]);
                assert(s@ =~= join_commas(prefix1));
            }
        }
        if i + 1 < len {
            s.append(",");
        }
        i = i + 1;
    }
    proof {
        assert(dv.subrange(0, len as int) =~= dv);
        if len == 0 {
            assert(s@ =~= join_commas(dv));
        }
    }
    s
}

} // verus!
