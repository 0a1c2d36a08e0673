//! Digits, numerals and hexadecimal tokens, stated over character sequences.
use vstd::prelude::*;
use vstd::string::StrSliceExecFns;
use vstd::string::StringExecFns;

verus! {

/// The value of a digit character in bases up to sixteen; 99 for any other character.
pub open spec fn digit_of(c: char) -> nat {
    if '0' <= c && c <= '9' {
        (c as nat - '0' as nat) as nat
    } else if 'a' <= c && c <= 'f' {
        (c as nat - 'a' as nat + 10) as nat
    } else if 'A' <= c && c <= 'F' {
        (c as nat - 'A' as nat + 10) as nat
    } else {
        99
    }
}

pub open spec fn all_digits(s: Seq<char>, radix: nat) -> bool {
    forall|i: int| 0 <= i < s.len() ==> #[trigger] digit_of(s[i]) < radix
}

/// The number that a string of digits denotes in the given base.
pub open spec fn digits_value(s: Seq<char>, radix: nat) -> nat
    decreases s.len(),
{
    if s.len() == 0 {
        0
    } else {
        digits_value(s.drop_last(), radix) * radix + digit_of(s.last())
    }
}

/// A non-empty run of digits in the given base.
pub open spec fn is_numeral(s: Seq<char>, radix: nat) -> bool {
    s.len() > 0 && all_digits(s, radix)
}

/// The lower-case hexadecimal digit for a value below sixteen.
pub open spec fn hex_char(d: nat) -> char {
    if d < 10 {
        ((d + 48) as u8) as char
    } else {
        ((d + 87) as u8) as char
    }
}

/// Lower-case hexadecimal digits of `v`, without leading zeros.
pub open spec fn hex_digits(v: nat) -> Seq<char>
    decreases v,
{
    if v < 16 {
        seq![hex_char(v)]
    } else {
        hex_digits(v / 16) + seq![hex_char(v % 16)]
    }
}

/// `v` written as `0x` and lower-case hexadecimal digits.
pub open spec fn hex_token(v: nat) -> Seq<char> {
    seq!['0', 'x'] + hex_digits(v)
}

/// Whether `s` starts with `0x`.
pub open spec fn has_hex_prefix(s: Seq<char>) -> bool {
    s.len() >= 2 && s[0] == '0' && s[1] == 'x'
}

/// `s` with every leading `0x` removed.
pub open spec fn strip_hex_prefixes(s: Seq<char>) -> Seq<char>
    decreases s.len(),
{
    if has_hex_prefix(s) {
        strip_hex_prefixes(s.subrange(2, s.len() as int))
    } else {
        s
    }
}

/// Digits with an optional leading `+`, as std's integer parsers take them.
pub open spec fn unsigned_body(s: Seq<char>) -> Seq<char> {
    if s.len() > 0 && s[0] == '+' {
        s.subrange(1, s.len() as int)
    } else {
        s
    }
}

pub proof fn lemma_digits_value_push(s: Seq<char>, c: char, radix: nat)
    ensures
        digits_value(s.push(c), radix) == digits_value(s, radix) * radix + digit_of(c),
{
    assert(s.push(c).drop_last() =~= s);
}

/// Reads the digits `s[from..]` in the given base; `None` when they are not a
/// numeral or denote `cap` or more.
pub fn parse_digits(s: &str, from: usize, radix: u64, cap: u128) -> (r: Option<u64>)
    requires
        from <= s@.len(),
        cap <= 0x1_0000_0000_0000_0000,
        radix == 10 || radix == 16,
    ensures
        ({
            let body = s@.subrange(from as int, s@.len() as int);
            r == if is_numeral(body, radix as nat) && digits_value(body, radix as nat) < cap {
                Some(digits_value(body, radix as nat) as u64)
            } else {
                None::<u64>
            }
        }),
{
    let n = s.unicode_len();
    if from >= n {
        return None;
    }
    let ghost body = s@.subrange(from as int, s@.len() as int);
    let mut acc: u64 = 0;
    let mut over = cap == 0;
    let mut i = from;
    while i < n
        invariant
            from <= i <= n,
            n == s@.len(),
            radix == 10 || radix == 16,
            cap <= 0x1_0000_0000_0000_0000,
            body == s@.subrange(from as int, n as int),
            all_digits(s@.subrange(from as int, i as int), radix as nat),
            !over ==> acc == digits_value(s@.subrange(from as int, i as int), radix as nat) && acc
                < cap,
            over ==> digits_value(s@.subrange(from as int, i as int), radix as nat) >= cap,
        decreases n - i,
    {
        let c = s.get_char(i);
        let ghost prefix = s@.subrange(from as int, i as int);
        assert(s@.subrange(from as int, i + 1) =~= prefix.push(c));
        proof {
            lemma_digits_value_push(prefix, c, radix as nat);
        }
        let d: u64 = if '0' <= c && c <= '9' {
            (c as u32 - '0' as u32) as u64
        } else if 'a' <= c && c <= 'f' {
            (c as u32 - 'a' as u32 + 10) as u64
        } else if 'A' <= c && c <= 'F' {
            (c as u32 - 'A' as u32 + 10) as u64
        } else {
            99
        };
        assert(d == digit_of(c));
        if d >= radix {
            assert(!all_digits(body, radix as nat)) by {
                assert(body[i - from] == c);
            }
            return None;
        }
        if !over {
            assert(acc as u128 * radix as u128 <= 0xFFFF_FFFF_FFFF_FFFFu128 * 16u128)
                by (nonlinear_arith)
                requires
                    acc <= 0xFFFF_FFFF_FFFF_FFFFu64,
                    radix <= 16,
            ;
            let next: u128 = acc as u128 * radix as u128 + d as u128;
            if next >= cap {
                over = true;
            } else {
                acc = next as u64;
            }
        } else {
            assert(digits_value(prefix, radix as nat) * radix >= digits_value(prefix, radix as nat))
                by (nonlinear_arith)
                requires
                    radix >= 1,
            ;
        }
        i = i + 1;
    }
    assert(s@.subrange(from as int, i as int) =~= body);
    if over {
        None
    } else {
        Some(acc)
    }
}

/// The one-character string for a hexadecimal digit.
fn hex_char_str(d: u64) -> (r: &'static str)
    requires
        d < 16,
    ensures
        r@ == seq![hex_char(d as nat)],
{
    proof {
        reveal_strlit("0");
        reveal_strlit("1");
        reveal_strlit("2");
        reveal_strlit("3");
        reveal_strlit("4");
        reveal_strlit("5");
        reveal_strlit("6");
        reveal_strlit("7");
        reveal_strlit("8");
        reveal_strlit("9");
        reveal_strlit("a");
        reveal_strlit("b");
        reveal_strlit("c");
        reveal_strlit("d");
        reveal_strlit("e");
        reveal_strlit("f");
    }
    let r = match d {
        0 => "0",
        1 => "1",
        2 => "2",
        3 => "3",
        4 => "4",
        5 => "5",
        6 => "6",
        7 => "7",
        8 => "8",
        9 => "9",
        10 => "a",
        11 => "b",
        12 => "c",
        13 => "d",
        14 => "e",
        _ => "f",
    };
    assert(r@ =~= seq![hex_char(d as nat)]);
    r
}

/// Formats `v` as `0x` followed by lower-case hexadecimal digits.
pub fn to_hex_token(v: u64) -> (r: String)
    ensures
        r@ == hex_token(v as nat),
{
    // digits, least significant first
    let mut rev: Vec<u64> = Vec::new();
    let mut x = v;
    let ghost mut parts: Seq<nat> = seq![];
    while x >= 16
        invariant
            x <= v,
            forall|k: int| 0 <= k < rev.len() ==> rev[k] < 16,
            hex_digits(v as nat) == hex_digits(x as nat) + Seq::new(
                rev.len() as nat,
                |k: int| hex_char(rev[rev.len() - 1 - k] as nat),
            ),
        decreases x,
    {
        let d = x % 16;
        let ghost old_rev = rev@;
        let ghost old_x = x;
        rev.push(d);
        x = x / 16;
        assert(hex_digits(old_x as nat) == hex_digits(x as nat) + seq![hex_char(d as nat)]);
        assert(hex_digits(v as nat) =~= hex_digits(x as nat) + Seq::new(
            rev.len() as nat,
            |k: int| hex_char(rev[rev.len() - 1 - k] as nat),
        ));
    }
    proof {
        reveal_strlit("0x");
    }
    let mut r = String::from_str("0x");
    r.append(hex_char_str(x));
    assert(r@ =~= seq!['0', 'x'] + hex_digits(x as nat));
    let mut j = rev.len();
    while j > 0
        invariant
            j <= rev.len(),
            forall|k: int| 0 <= k < rev.len() ==> rev[k] < 16,
            hex_digits(v as nat) == hex_digits(x as nat) + Seq::new(
                rev.len() as nat,
                |k: int| hex_char(rev[rev.len() - 1 - k] as nat),
            ),
            r@ == seq!['0', 'x'] + hex_digits(x as nat) + Seq::new(
                (rev.len() - j) as nat,
                |k: int| hex_char(rev[rev.len() - 1 - k] as nat),
            ),
        decreases j,
    {
        j = j - 1;
        let ghost old_r = r@;
        r.append(hex_char_str(rev[j]));
        assert(r@ =~= seq!['0', 'x'] + hex_digits(x as nat) + Seq::new(
            (rev.len() - j) as nat,
            |k: int| hex_char(rev[rev.len() - 1 - k] as nat),
        ));
    }
    assert(r@ =~= hex_token(v as nat));
    r
}

pub open spec fn is_space(c: char) -> bool {
    c == ' ' || c == '\n' || c == '\t' || c == '\r'
}

/// End of the token that starts at `i`: the first space at or after `i`.
pub open spec fn token_end(s: Seq<char>, i: int) -> int
    decreases s.len() - i,
{
    if i >= s.len() || is_space(s[i]) {
        i
    } else {
        token_end(s, i + 1)
    }
}

/// A field element written as `0x` and hexadecimal digits.
pub open spec fn hex_word(t: Seq<char>) -> Option<u64> {
    if has_hex_prefix(t) && is_numeral(t.subrange(2, t.len() as int), 16) && digits_value(
        t.subrange(2, t.len() as int),
        16,
    ) < 0xFFFF_FFFF_0000_0001u64 {
        Some(digits_value(t.subrange(2, t.len() as int), 16) as u64)
    } else {
        None
    }
}

/// The field elements of a program text from position `i`: hexadecimal words separated
/// by spaces and line breaks.
pub open spec fn hex_words_from(s: Seq<char>, i: int) -> Option<Seq<u64>>
    decreases s.len() - i,
{
    if i < 0 || i >= s.len() {
        Some(Seq::empty())
    } else if is_space(s[i]) {
        hex_words_from(s, i + 1)
    } else {
        let j = token_end(s, i);
        if j <= i || j > s.len() {
            None
        } else {
            match hex_word(s.subrange(i, j)) {
                None => None,
                Some(w) => match hex_words_from(s, j) {
                    None => None,
                    Some(rest) => Some(seq![w] + rest),
                },
            }
        }
    }
}

proof fn lemma_token_end(s: Seq<char>, i: int)
    requires
        0 <= i <= s.len(),
    ensures
        i <= token_end(s, i) <= s.len(),
        forall|k: int| i <= k < token_end(s, i) ==> !is_space(#[trigger] s[k]),
        token_end(s, i) < s.len() ==> is_space(s[token_end(s, i)]),
    decreases s.len() - i,
{
    if i < s.len() && !is_space(s[i]) {
        lemma_token_end(s, i + 1);
    }
}

/// Reads the field elements of a program text.
pub fn parse_hex_words(text: &str) -> (r: Option<Vec<u64>>)
    ensures
        match hex_words_from(text@, 0) {
            Some(ws) => r matches Some(v) && v@ == ws,
            None => r is None,
        },
{
    let n = text.unicode_len();
    let mut out: Vec<u64> = Vec::new();
    let mut i: usize = 0;
    while i < n
        invariant
            i <= n,
            n == text@.len(),
            hex_words_from(text@, 0) == match hex_words_from(text@, i as int) {
                None => None,
                Some(rest) => Some(out@ + rest),
            },
        decreases n - i,
    {
        let c = text.get_char(i);
        if c == ' ' || c == '\n' || c == '\t' || c == '\r' {
            i = i + 1;
        } else {
            let mut j = i;
            proof {
                lemma_token_end(text@, i as int);
            }
            while j < n && !(text.get_char(j) == ' ' || text.get_char(j) == '\n' || text.get_char(j) == '\t' || text.get_char(j) == '\r')
                invariant
                    i <= j <= token_end(text@, i as int),
                    token_end(text@, i as int) <= n,
                    n == text@.len(),
                    forall|k: int| i <= k < token_end(text@, i as int) ==> !is_space(#[trigger] text@[k]),
                    token_end(text@, i as int) < n ==> is_space(text@[token_end(text@, i as int)]),
                decreases n - j,
            {
                j = j + 1;
            }
            assert(j == token_end(text@, i as int));
            let ghost tok = text@.subrange(i as int, j as int);
            if j - i < 2 || text.get_char(i) != '0' || text.get_char(i + 1) != 'x' {
                assert(!has_hex_prefix(tok)) by {
                    if j - i >= 2 {
                        assert(tok[0] == text@[i as int] && tok[1] == text@[i + 1]);
                    }
                }
                return None;
            }
            assert(tok[0] == text@[i as int] && tok[1] == text@[i + 1]);
            let t = text.substring_char(i, j);
            assert(tok.subrange(2, tok.len() as int) =~= t@.subrange(2, t@.len() as int));
            match parse_digits(t, 2, 16, 0xFFFF_FFFF_0000_0001u128) {
                None => {
                    return None;
                },
                Some(w) => {
                    proof {
                        match hex_words_from(text@, j as int) {
                            None => {},
                            Some(rest) => {
                                assert(out@ + (seq![w] + rest) =~= out@.push(w) + rest);
                            },
                        }
                    }
                    out.push(w);
                },
            }
            i = j;
        }
    }
    assert(out@ + Seq::<u64>::empty() =~= out@);
    Some(out)
}

} // verus!
