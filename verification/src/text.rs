//! Text handling shared by the handshake and the clipboard: UTF-8 decoding,
//! line-ending normalisation and decimal numbers as ASCII.
use vstd::prelude::*;
use vstd::utf8::*;

verus! {

/// `String::from_utf8` (std): decodes `bytes` as UTF-8.
/// Its documentation promises an error exactly when the bytes are not valid
/// UTF-8, and otherwise a string holding the decoded characters; the contract
/// states both over vstd's `valid_utf8` and `decode_utf8`.
#[verifier::external_body]
pub fn utf8_to_string(bytes: &[u8]) -> (res: Option<String>)
    ensures
        res is Some <==> valid_utf8(bytes@),
        res matches Some(s) ==> s@ == decode_utf8(bytes@),
{
    String::from_utf8(bytes.to_vec()).ok()
}

pub const CR: u8 = 13;

pub const LF: u8 = 10;

/// Replaces every non-overlapping occurrence of `pat`, scanning from the left,
/// by `rep` (what `str::replace` does).
pub open spec fn replace_all<A>(s: Seq<A>, pat: Seq<A>, rep: Seq<A>) -> Seq<A>
    decreases s.len(),
{
    if s.len() == 0 || pat.len() == 0 {
        s
    } else if s.len() >= pat.len() && s.subrange(0, pat.len() as int) == pat {
        rep + replace_all(s.subrange(pat.len() as int, s.len() as int), pat, rep)
    } else {
        seq![s[0]] + replace_all(s.subrange(1, s.len() as int), pat, rep)
    }
}

/// Line endings normalised: first every `cr lf` becomes `lf`, then every
/// remaining `cr` becomes `lf`.
pub open spec fn normalized_with<A>(s: Seq<A>, cr: A, lf: A) -> Seq<A> {
    replace_all(replace_all(s, seq![cr, lf], seq![lf]), seq![cr], seq![lf])
}

/// Text with its line endings normalised (CR LF and lone CR become LF).
pub open spec fn normalized_text(t: Seq<char>) -> Seq<char> {
    normalized_with(t, '\r', '\n')
}

/// Bytes with their line endings normalised.
pub open spec fn normalized(s: Seq<u8>) -> Seq<u8> {
    normalized_with(s, CR, LF)
}

/// The same normalisation done in one left-to-right pass.
pub open spec fn one_pass<A>(s: Seq<A>, cr: A, lf: A) -> Seq<A>
    decreases s.len(),
{
    if s.len() == 0 {
        s
    } else if s[0] == cr && s.len() >= 2 && s[1] == lf {
        seq![lf] + one_pass(s.subrange(2, s.len() as int), cr, lf)
    } else if s[0] == cr {
        seq![lf] + one_pass(s.subrange(1, s.len() as int), cr, lf)
    } else {
        seq![s[0]] + one_pass(s.subrange(1, s.len() as int), cr, lf)
    }
}

/// Replacing the single element `cr` by `lf` everywhere.
proof fn lemma_replace_single<A>(s: Seq<A>, cr: A, lf: A)
    ensures
        replace_all(s, seq![cr], seq![lf]) == s.map_values(|b: A| if b == cr { lf } else { b }),
    decreases s.len(),
{
    let f = |b: A| if b == cr { lf } else { b };
    if s.len() > 0 {
        let rest = s.subrange(1, s.len() as int);
        lemma_replace_single(rest, cr, lf);
        if s.subrange(0, 1) == seq![cr] {
            assert(s[0] == s.subrange(0, 1)[0]);
        } else {
            assert(s.subrange(0, 1) =~= seq![s[0]]);
        }
        assert(s.map_values(f) =~= seq![f(s[0])] + rest.map_values(f));
    } else {
        assert(s.map_values(f) =~= s);
    }
}

proof fn lemma_map_concat<A>(a: Seq<A>, b: Seq<A>, cr: A, lf: A)
    ensures
        (a + b).map_values(|x: A| if x == cr { lf } else { x }) == a.map_values(
            |x: A| if x == cr { lf } else { x },
        ) + b.map_values(|x: A| if x == cr { lf } else { x }),
{
    let f = |x: A| if x == cr { lf } else { x };
    assert((a + b).map_values(f) =~= a.map_values(f) + b.map_values(f));
}

/// The two passes of `normalized_with` and the single pass agree.
pub proof fn lemma_one_pass<A>(s: Seq<A>, cr: A, lf: A)
    requires
        cr != lf,
    ensures
        normalized_with(s, cr, lf) == one_pass(s, cr, lf),
    decreases s.len(),
{
    let f = |x: A| if x == cr { lf } else { x };
    let crlf = seq![cr, lf];
    let first = replace_all(s, crlf, seq![lf]);
    lemma_replace_single(first, cr, lf);
    if s.len() == 0 {
        assert(first.map_values(f) =~= s);
    } else {
        if s.len() >= 2 && s.subrange(0, 2) == crlf {
            let rest = s.subrange(2, s.len() as int);
            assert(s[0] == s.subrange(0, 2)[0] && s[1] == s.subrange(0, 2)[1]);
            lemma_one_pass(rest, cr, lf);
            lemma_replace_single(replace_all(rest, crlf, seq![lf]), cr, lf);
            lemma_map_concat(seq![lf], replace_all(rest, crlf, seq![lf]), cr, lf);
            assert(seq![lf].map_values(f) =~= seq![lf]);
        } else {
            let rest = s.subrange(1, s.len() as int);
            lemma_one_pass(rest, cr, lf);
            lemma_replace_single(replace_all(rest, crlf, seq![lf]), cr, lf);
            lemma_map_concat(seq![s[0]], replace_all(rest, crlf, seq![lf]), cr, lf);
            assert(seq![s[0]].map_values(f) =~= seq![f(s[0])]);
            if s[0] == cr && s.len() >= 2 && s[1] == lf {
                assert(s.subrange(0, 2) =~= crlf);
            }
        }
    }
}

proof fn lemma_one_pass_no_cr_prefix(x: Seq<u8>, y: Seq<u8>)
    requires
        forall|i: int| 0 <= i < x.len() ==> #[trigger] x[i] != CR,
    ensures
        one_pass(x + y, CR, LF) == x + one_pass(y, CR, LF),
    decreases x.len(),
{
    if x.len() > 0 {
        let xs = x.subrange(1, x.len() as int);
        assert forall|i: int| 0 <= i < xs.len() implies #[trigger] xs[i] != CR by {
            assert(xs[i] == x[i + 1]);
        }
        lemma_one_pass_no_cr_prefix(xs, y);
        assert((x + y)[0] == x[0]);
        assert((x + y).subrange(1, (x + y).len() as int) =~= xs + y);
        assert(seq![x[0]] + (xs + y) =~= x + y);
        assert(seq![x[0]] + (xs + one_pass(y, CR, LF)) =~= x + one_pass(y, CR, LF));
    } else {
        assert(x + y =~= y);
        assert(x + one_pass(y, CR, LF) =~= one_pass(y, CR, LF));
    }
}

proof fn lemma_ascii_byte_valid(c: u8)
    requires
        c < 0x80,
    ensures
        valid_utf8(seq![c]),
{
    reveal_with_fuel(valid_utf8, 2);
    assert(seq![c].subrange(1, 1) =~= Seq::<u8>::empty());
    assert(pop_first_scalar(seq![c]) =~= Seq::<u8>::empty());
}

/// Normalising line endings keeps valid UTF-8 valid: it only rewrites ASCII
/// CR bytes, which never occur inside a multi-byte character.
pub proof fn lemma_one_pass_valid_utf8(b: Seq<u8>)
    requires
        valid_utf8(b),
    ensures
        valid_utf8(one_pass(b, CR, LF)),
    decreases b.len(),
{
    broadcast use valid_utf8_concat;

    reveal_with_fuel(valid_utf8, 2);
    if b.len() > 0 {
        let rest1 = b.subrange(1, b.len() as int);
        if b[0] < 0x80 {
            assert(pop_first_scalar(b) == rest1);
            if b[0] == CR && b.len() >= 2 && b[1] == LF {
                let rest2 = b.subrange(2, b.len() as int);
                assert(rest1[0] == LF);
                assert(pop_first_scalar(rest1) =~= rest2);
                lemma_one_pass_valid_utf8(rest2);
                lemma_ascii_byte_valid(LF);
            } else {
                lemma_one_pass_valid_utf8(rest1);
                if b[0] == CR {
                    lemma_ascii_byte_valid(LF);
                } else {
                    lemma_ascii_byte_valid(b[0]);
                }
            }
        } else {
            let w = length_of_first_scalar(b);
            let x = b.subrange(0, w);
            let rest = b.subrange(w, b.len() as int);
            assert(2 <= w <= 4);
            assert forall|i: int| 0 <= i < x.len() implies #[trigger] x[i] != CR by {
                assert(x[i] == b[i]);
            }
            assert(b =~= x + rest);
            lemma_one_pass_no_cr_prefix(x, rest);
            assert(pop_first_scalar(b) == rest);
            lemma_one_pass_valid_utf8(rest);
            assert(x[0] == b[0]);
            assert(x[1] == b[1]);
            if w >= 3 {
                assert(x[2] == b[2]);
            }
            if w >= 4 {
                assert(x[3] == b[3]);
            }
            assert(valid_first_scalar(x));
            assert(pop_first_scalar(x) =~= Seq::<u8>::empty());
            assert(valid_utf8(x));
        }
    }
}

/// Decoding valid UTF-8 that starts with an ASCII byte: that byte's
/// character, then the rest.
proof fn lemma_decode_ascii_first(b: Seq<u8>)
    requires
        valid_utf8(b),
        b.len() > 0,
        b[0] < 0x80,
    ensures
        valid_utf8(b.subrange(1, b.len() as int)),
        decode_utf8(b) == seq![(b[0] as u32) as char] + decode_utf8(b.subrange(1, b.len() as int)),
{
    let c = b[0];
    assert((c & 0x7f) as u32 == c as u32) by (bit_vector)
        requires
            c < 0x80,
    ;
    assert(pop_first_scalar(b) == b.subrange(1, b.len() as int));
}

/// The first character of valid UTF-8 that starts with a non-ASCII byte is
/// not ASCII.
proof fn lemma_decode_non_ascii_first(b: Seq<u8>)
    requires
        valid_utf8(b),
        b.len() > 0,
        b[0] >= 0x80,
    ensures
        decode_first_scalar(b) >= 0x80,
        decode_utf8(b) == seq![decode_first_scalar(b) as char] + decode_utf8(pop_first_scalar(b)),
        valid_utf8(pop_first_scalar(b)),
{
}

/// The first character of valid UTF-8 that starts with a non-ASCII byte
/// is none of the ASCII characters.
proof fn lemma_non_ascii_char_not(b: Seq<u8>, c: char)
    requires
        valid_utf8(b),
        b.len() > 0,
        b[0] >= 0x80,
        (c as u32) < 0x80,
    ensures
        decode_first_scalar(b) as char != c,
{
    decode_utf8_first_scalar(b);
    if decode_first_scalar(b) as char == c {
        assert(has_width_1_encoding(c as u32));
        assert(encode_scalar(c as u32).len() == 1);
        assert(take_first_scalar(b).len() == length_of_first_scalar(b));
    }
}

/// The character for an ASCII byte, as a number.
proof fn lemma_ascii_char(c: u8)
    requires
        c < 0x80,
    ensures
        ((c as u32) as char) as u32 == c as u32,
{
    char_u32_cast((c as u32) as char, c as u32);
}

/// Normalising the bytes of valid UTF-8 and then decoding gives the
/// decoded text with its line endings normalised.
pub proof fn lemma_decode_one_pass(b: Seq<u8>)
    requires
        valid_utf8(b),
    ensures
        decode_utf8(one_pass(b, CR, LF)) == one_pass(decode_utf8(b), '\r', '\n'),
    decreases b.len(),
{
    broadcast use valid_utf8_concat;

    lemma_one_pass_valid_utf8(b);
    if b.len() == 0 {
        assert(decode_utf8(b) =~= Seq::<char>::empty());
    } else if b[0] < 0x80 {
        let rest1 = b.subrange(1, b.len() as int);
        lemma_decode_ascii_first(b);
        let c0 = (b[0] as u32) as char;
        assert(c0 == '\r' <==> b[0] == CR) by {
            lemma_ascii_char(b[0]);
        }
        if b[0] == CR && b.len() >= 2 && b[1] == LF {
            let rest2 = b.subrange(2, b.len() as int);
            assert(rest1[0] == LF);
            lemma_decode_ascii_first(rest1);
            assert(rest1.subrange(1, rest1.len() as int) =~= rest2);
            assert(((LF as u32) as char) == '\n') by {
                lemma_ascii_char(LF);
            }
            let d = decode_utf8(b);
            assert(d =~= seq!['\r', '\n'] + decode_utf8(rest2));
            assert(d.subrange(2, d.len() as int) =~= decode_utf8(rest2));
            lemma_decode_one_pass(rest2);
            let y = one_pass(rest2, CR, LF);
            lemma_one_pass_valid_utf8(rest2);
            lemma_ascii_byte_valid(LF);
            let ly = seq![LF] + y;
            lemma_decode_ascii_first(ly);
            assert(ly.subrange(1, ly.len() as int) =~= y);
        } else {
            lemma_decode_one_pass(rest1);
            let y = one_pass(rest1, CR, LF);
            lemma_one_pass_valid_utf8(rest1);
            let d = decode_utf8(b);
            assert(d.subrange(1, d.len() as int) =~= decode_utf8(rest1));
            if b[0] == CR {
                // The next character, if any, is not a line feed.
                if rest1.len() > 0 {
                    if rest1[0] < 0x80 {
                        lemma_decode_ascii_first(rest1);
                        lemma_ascii_char(rest1[0]);
                        assert(d[1] == (rest1[0] as u32) as char);
                        assert('\n' as u32 == 10);
                    } else {
                        lemma_decode_non_ascii_first(rest1);
                        lemma_non_ascii_char_not(rest1, '\n');
                        assert(d[1] == decode_first_scalar(rest1) as char);
                    }
                    assert(d[1] != '\n');
                }
                lemma_ascii_byte_valid(LF);
                let ly = seq![LF] + y;
                lemma_decode_ascii_first(ly);
                assert(ly.subrange(1, ly.len() as int) =~= y);
                assert(((LF as u32) as char) == '\n') by {
                    lemma_ascii_char(LF);
                }
            } else {
                lemma_ascii_byte_valid(b[0]);
                let ly = seq![b[0]] + y;
                lemma_decode_ascii_first(ly);
                assert(ly.subrange(1, ly.len() as int) =~= y);
            }
        }
    } else {
        let w = length_of_first_scalar(b);
        let x = b.subrange(0, w);
        let rest = b.subrange(w, b.len() as int);
        lemma_decode_non_ascii_first(b);
        assert forall|i: int| 0 <= i < x.len() implies #[trigger] x[i] != CR by {
            assert(x[i] == b[i]);
        }
        assert(b =~= x + rest);
        lemma_one_pass_no_cr_prefix(x, rest);
        lemma_decode_one_pass(rest);
        lemma_one_pass_valid_utf8(rest);
        let y = one_pass(rest, CR, LF);
        let xy = x + y;
        assert(xy[0] == b[0]);
        assert(xy[1] == b[1]);
        if w >= 3 {
            assert(xy[2] == b[2]);
        }
        if w >= 4 {
            assert(xy[3] == b[3]);
        }
        assert(decode_first_scalar(xy) == decode_first_scalar(b));
        assert(length_of_first_scalar(xy) == w);
        assert(valid_first_scalar(xy));
        assert(pop_first_scalar(xy) =~= y);
        assert(valid_utf8(xy));
        let ch = decode_first_scalar(b) as char;
        lemma_non_ascii_char_not(b, '\r');
        assert(ch != '\r');
        let d = decode_utf8(b);
        assert(d.subrange(1, d.len() as int) =~= decode_utf8(rest));
    }
}

/// Normalises line endings: CR LF and lone CR both become LF.
pub fn normalize_text(text: &[u8]) -> (res: Vec<u8>)
    ensures
        res@ == normalized(text@),
{
    let mut out: Vec<u8> = Vec::new();
    let mut i: usize = 0;
    let n: usize = text.len();
    proof {
        assert(text@.subrange(0, n as int) =~= text@);
        assert(out@ + one_pass(text@, CR, LF) =~= one_pass(text@, CR, LF));
    }
    while i < n
        invariant
            n == text@.len(),
            i <= n,
            out@ + one_pass(text@.subrange(i as int, n as int), CR, LF) == one_pass(text@, CR, LF),
        decreases n - i,
    {
        let rest = Ghost(text@.subrange(i as int, n as int));
        if text[i] == CR && i + 1 < n && text[i + 1] == LF {
            out.push(LF);
            proof {
                assert(rest@.subrange(2, rest@.len() as int) =~= text@.subrange(i + 2, n as int));
            }
            i = i + 2;
        } else if text[i] == CR {
            out.push(LF);
            proof {
                assert(rest@.subrange(1, rest@.len() as int) =~= text@.subrange(i + 1, n as int));
            }
            i = i + 1;
        } else {
            out.push(text[i]);
            proof {
                assert(rest@.subrange(1, rest@.len() as int) =~= text@.subrange(i + 1, n as int));
            }
            i = i + 1;
        }
    }
    proof {
        assert(text@.subrange(n as int, n as int) =~= Seq::<u8>::empty());
        assert(out@ + Seq::<u8>::empty() =~= out@);
        lemma_one_pass(text@, CR, LF);
    }
    out
}


/// True when every byte is an ASCII decimal digit.
pub open spec fn all_digits(s: Seq<u8>) -> bool {
    forall|i: int| 0 <= i < s.len() ==> 48 <= #[trigger] s[i] <= 57
}

/// The number that a string of ASCII decimal digits denotes.
pub open spec fn digits_value(s: Seq<u8>) -> nat
    decreases s.len(),
{
    if s.len() == 0 {
        0
    } else {
        digits_value(s.drop_last()) * 10 + (s.last() - 48) as nat
    }
}

/// What `str::parse::<usize>` gives for the text `s`: an optional `+`, then
/// at least one decimal digit and nothing else, denoting at most `usize::MAX`.
pub open spec fn spec_parse_usize(s: Seq<u8>) -> Option<usize> {
    if s.len() > 0 && s[0] == 43 {
        parse_digits(s.subrange(1, s.len() as int))
    } else {
        parse_digits(s)
    }
}

/// The value of a non-empty run of decimal digits that fits in a `usize`.
pub open spec fn parse_digits(d: Seq<u8>) -> Option<usize> {
    if d.len() > 0 && all_digits(d) && digits_value(d) <= usize::MAX {
        Some(digits_value(d) as usize)
    } else {
        None
    }
}

/// The shortest decimal representation of `n` in ASCII digits.
pub open spec fn decimal(n: nat) -> Seq<u8>
    decreases n,
{
    if n < 10 {
        seq![(48 + n) as u8]
    } else {
        decimal(n / 10).push((48 + n % 10) as u8)
    }
}

proof fn lemma_digits_prefix_le(s: Seq<u8>, i: int)
    requires
        0 <= i <= s.len(),
        all_digits(s),
    ensures
        digits_value(s.subrange(0, i)) <= digits_value(s),
    decreases s.len() - i,
{
    if i < s.len() {
        lemma_digits_prefix_le(s, i + 1);
        let p = s.subrange(0, i + 1);
        assert(p.drop_last() =~= s.subrange(0, i));
    } else {
        assert(s.subrange(0, i) =~= s);
    }
}

/// Parses a decimal `usize` the way `str::parse::<usize>` does.
pub fn parse_usize(s: &[u8]) -> (res: Option<usize>)
    ensures
        res == spec_parse_usize(s@),
{
    let start: usize = if s.len() > 0 && s[0] == 43 {
        1
    } else {
        0
    };
    let ghost d = s@.subrange(start as int, s@.len() as int);
    proof {
        if start == 0 {
            assert(d =~= s@);
        }
        assert(spec_parse_usize(s@) == parse_digits(d));
    }
    if start == s.len() {
        return None;
    }
    let mut k: usize = start;
    while k < s.len()
        invariant
            start <= k <= s@.len(),
            d == s@.subrange(start as int, s@.len() as int),
            spec_parse_usize(s@) == parse_digits(d),
            forall|j: int| start <= j < k ==> 48 <= #[trigger] s@[j] <= 57,
        decreases s@.len() - k,
    {
        if s[k] < 48 || s[k] > 57 {
            proof {
                assert(d[k - start] == s@[k as int]);
            }
            return None;
        }
        k = k + 1;
    }
    proof {
        assert(all_digits(d));
    }
    let mut value: usize = 0;
    let mut i: usize = start;
    while i < s.len()
        invariant
            start <= i <= s@.len(),
            d == s@.subrange(start as int, s@.len() as int),
            spec_parse_usize(s@) == parse_digits(d),
            all_digits(d),
            value as nat == digits_value(d.subrange(0, i - start)),
        decreases s@.len() - i,
    {
        proof {
            assert(d[i - start] == s@[i as int]);
        }
        let digit: usize = (s[i] - 48) as usize;
        proof {
            let p = d.subrange(0, i - start + 1);
            assert(p.drop_last() =~= d.subrange(0, i - start));
            assert(p.last() == s@[i as int]);
        }
        match value.checked_mul(10) {
            Some(t) => match t.checked_add(digit) {
                Some(v) => {
                    value = v;
                },
                None => {
                    proof {
                        lemma_digits_prefix_le(d, i - start + 1);
                    }
                    return None;
                },
            },
            None => {
                proof {
                    lemma_digits_prefix_le(d, i - start + 1);
                }
                return None;
            },
        }
        i = i + 1;
    }
    proof {
        assert(d.subrange(0, d.len() as int) =~= d);
    }
    Some(value)
}

/// The decimal text of `n` is a non-empty run of digits worth `n`.
pub proof fn lemma_decimal_digits(n: nat)
    ensures
        all_digits(decimal(n)),
        digits_value(decimal(n)) == n,
        decimal(n).len() > 0,
        decimal(n)[0] != 43,
    decreases n,
{
    if n >= 10 {
        lemma_decimal_digits(n / 10);
        let d = decimal(n / 10);
        let last = (48 + n % 10) as u8;
        assert(d.push(last).drop_last() =~= d);
        assert(decimal(n)[0] == d[0]);
        assert(n == (n / 10) * 10 + n % 10) by (nonlinear_arith);
        assert(0 <= n % 10 < 10);
        assert(last - 48 == n % 10);
        assert(decimal(n) == d.push(last));
        assert(decimal(n).last() == last);
        assert(digits_value(decimal(n)) == digits_value(d) * 10 + (last - 48) as nat);
    } else {
        assert(decimal(n).drop_last() =~= Seq::<u8>::empty());
        assert(digits_value(Seq::<u8>::empty()) == 0);
    }
}

/// Reading a number back from its decimal text gives the number.
pub proof fn lemma_parse_decimal(n: usize)
    ensures
        spec_parse_usize(decimal(n as nat)) == Some(n),
{
    lemma_decimal_digits(n as nat);
}

/// Writes `n` in decimal ASCII digits (what `usize::to_string` gives).
pub fn format_usize(n: usize) -> (res: Vec<u8>)
    ensures
        res@ == decimal(n as nat),
{
    let mut m: usize = n;
    // Digits from least to most significant.
    let mut rev: Vec<u8> = Vec::new();
    proof {
        assert(rev@.reverse() =~= Seq::<u8>::empty());
        assert(decimal(n as nat) =~= decimal(m as nat) + rev@.reverse());
    }
    while m >= 10
        invariant
            decimal(n as nat) == decimal(m as nat) + rev@.reverse(),
        decreases m,
    {
        let digit: u8 = (m % 10) as u8 + 48;
        proof {
            let old_rev = rev@;
            assert(decimal(m as nat) == decimal((m / 10) as nat).push(digit));
            assert(old_rev.push(digit).reverse() =~= seq![digit] + old_rev.reverse());
            assert(decimal((m / 10) as nat).push(digit) + old_rev.reverse() =~= decimal(
                (m / 10) as nat,
            ) + (seq![digit] + old_rev.reverse()));
        }
        rev.push(digit);
        m = m / 10;
    }
    proof {
        let old_rev = rev@;
        let digit = (m + 48) as u8;
        assert(old_rev.push(digit).reverse() =~= seq![digit] + old_rev.reverse());
    }
    rev.push(m as u8 + 48);
    let mut out: Vec<u8> = Vec::new();
    let mut j: usize = rev.len();
    proof {
        assert(rev@.subrange(j as int, rev@.len() as int).reverse() =~= Seq::<u8>::empty());
    }
    while j > 0
        invariant
            j <= rev@.len(),
            out@ == rev@.subrange(j as int, rev@.len() as int).reverse(),
        decreases j,
    {
        j = j - 1;
        proof {
            assert(rev@.subrange(j as int, rev@.len() as int).reverse() =~= rev@.subrange(
                j + 1,
                rev@.len() as int,
            ).reverse().push(rev@[j as int]));
        }
        out.push(rev[j]);
    }
    proof {
        assert(rev@.subrange(0, rev@.len() as int) =~= rev@);
    }
    out
}

} // verus!
