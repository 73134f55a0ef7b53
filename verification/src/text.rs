//! Character-level text building: decimal numbers, zero padding, ASCII case
//! folding, equality and joining of strings.

use vstd::prelude::*;

verus! {

/// The character of the decimal digit `d`.
pub open spec fn digit_char(d: nat) -> char
    recommends
        d < 10,
{
    (d + 48) as char
}

/// The decimal digits of `n`, most significant first, without leading zeros
/// (`0` is the single digit `0`).
pub open spec fn decimal(n: nat) -> Seq<char>
    decreases n,
{
    if n < 10 {
        seq![digit_char(n)]
    } else {
        decimal(n / 10).push(digit_char(n % 10))
    }
}

/// `len` copies of the character `'0'`.
pub open spec fn zeros(len: nat) -> Seq<char> {
    Seq::new(len, |i: int| '0')
}

/// `s` left-padded with `'0'` to at least `width` characters.
pub open spec fn zero_padded(s: Seq<char>, width: nat) -> Seq<char> {
    if s.len() < width {
        zeros((width - s.len()) as nat) + s
    } else {
        s
    }
}

/// The text of a signed integer as Rust's `Display` writes it.
pub open spec fn signed_decimal(i: int) -> Seq<char> {
    if i < 0 {
        seq!['-'] + decimal((-i) as nat)
    } else {
        decimal(i as nat)
    }
}

#[verifier::external_body]
fn push_char(s: &mut String, c: char)
    ensures
        final(s)@ == old(s)@.push(c),
{
    s.push(c);
}

/// Appends the decimal digits of `n` to `s`.
pub fn push_decimal(s: &mut String, n: u64)
    ensures
        final(s)@ == old(s)@ + decimal(n as nat),
    decreases n,
{
    if n >= 10 {
        push_decimal(s, n / 10);
    }
    let d: u8 = (n % 10) as u8;
    push_char(s, (d + 48u8) as char);
    assert(s@ =~= old(s)@ + decimal(n as nat)) by {
        if n >= 10 {
            assert(decimal(n as nat) == decimal((n / 10) as nat).push(digit_char((n % 10) as nat)));
        }
    }
}

/// `10` to the power `w`.
pub open spec fn pow10(w: nat) -> nat
    decreases w,
{
    if w == 0 {
        1
    } else {
        10 * pow10((w - 1) as nat)
    }
}

/// Lemma: the decimal text of a number below `10^w` (for `w >= 1`) has at most
/// `w` digits, all of them digit characters.
pub proof fn lemma_decimal_shape(n: nat, w: nat)
    requires
        w >= 1,
        n < pow10(w),
    ensures
        decimal(n).len() <= w,
        forall|k: int| 0 <= k < decimal(n).len() ==> '0' <= #[trigger] decimal(n)[k] <= '9',
    decreases n,
{
    if n >= 10 {
        assert(pow10(w) == 10 * pow10((w - 1) as nat));
        if w == 1 {
            assert(false);
        }
        assert(n / 10 < pow10((w - 1) as nat));
        lemma_decimal_shape(n / 10, (w - 1) as nat);
        assert(digit_char(n % 10) as int == n % 10 + 48);
    } else {
        assert(digit_char(n) as int == n + 48);
    }
}

/// The number that a text of decimal digits denotes (leading zeros allowed).
pub open spec fn digits_value(s: Seq<char>) -> int
    decreases s.len(),
{
    if s.len() == 0 {
        0
    } else {
        digits_value(s.drop_last()) * 10 + (s.last() as int - 48)
    }
}

/// Lemma: the decimal text of `n` denotes `n`.
pub proof fn lemma_decimal_value(n: nat)
    ensures
        digits_value(decimal(n)) == n,
    decreases n,
{
    let d = n % 10;
    assert(digit_char(d) as int == d + 48);
    if n >= 10 {
        lemma_decimal_value(n / 10);
        assert(decimal(n).drop_last() == decimal(n / 10));
    } else {
        assert(decimal(n).drop_last() =~= Seq::<char>::empty());
    }
    assert(decimal(n).last() == digit_char(d));
    assert(digits_value(decimal(n)) == digits_value(decimal(n).drop_last()) * 10 + (decimal(n).last() as int - 48));
}

/// Lemma: leading zeros do not change the number that digits denote.
pub proof fn lemma_leading_zeros_value(k: nat, s: Seq<char>)
    ensures
        digits_value(zeros(k) + s) == digits_value(s),
    decreases s.len(), k,
{
    if s.len() == 0 {
        assert(zeros(k) + s =~= zeros(k));
        if k > 0 {
            assert(zeros(k).drop_last() =~= zeros((k - 1) as nat));
            lemma_leading_zeros_value((k - 1) as nat, s);
            assert(zeros((k - 1) as nat) + s =~= zeros((k - 1) as nat));
        }
    } else {
        assert((zeros(k) + s).drop_last() =~= zeros(k) + s.drop_last());
        lemma_leading_zeros_value(k, s.drop_last());
    }
}

/// Lemma: the zero-padded decimal text of `n` denotes `n`.
pub proof fn lemma_padded_value(n: nat, width: nat)
    ensures
        digits_value(zero_padded(decimal(n), width)) == n,
{
    lemma_decimal_value(n);
    if decimal(n).len() < width {
        lemma_leading_zeros_value((width - decimal(n).len()) as nat, decimal(n));
    }
}

/// Lemma: the decimal text of `n` consists of digit characters, and has no
/// leading zero unless it is the single digit of 0.
pub proof fn lemma_decimal_canonical(n: nat)
    ensures
        decimal(n).len() >= 1,
        forall|k: int| 0 <= k < decimal(n).len() ==> '0' <= #[trigger] decimal(n)[k] <= '9',
        n >= 10 <==> decimal(n).len() > 1,
        decimal(n).len() > 1 ==> decimal(n)[0] != '0',
        n == 0 <==> decimal(n) == seq!['0'],
    decreases n,
{
    if n >= 10 {
        lemma_decimal_canonical(n / 10);
        let d = decimal(n / 10);
        assert(decimal(n) == d.push(digit_char(n % 10)));
        assert(digit_char(n % 10) as int == n % 10 + 48);
        assert(decimal(n)[0] == d[0]);
        if n / 10 < 10 {
            assert(digit_char(n / 10) as int == n / 10 + 48);
            assert(d[0] == digit_char(n / 10));
        }
        assert(decimal(n).len() > 1);
        assert(decimal(n) != seq!['0']) by {
            assert(seq!['0'].len() == 1);
        }
    } else {
        assert(decimal(n) == seq![digit_char(n)]);
        assert(digit_char(n) as int == n + 48);
        assert(decimal(n)[0] == digit_char(n));
        if n == 0 {
            assert(digit_char(0) == '0');
            assert(decimal(n) =~= seq!['0']);
        } else {
            assert(digit_char(n) != '0');
            assert(decimal(n) != seq!['0']) by {
                assert(seq!['0'][0] == '0');
            }
        }
    }
}

/// The text of a signed integer denotes it: a non-negative number is written
/// as its digits, a negative one as a minus sign and the digits of its
/// magnitude, with no leading zeros.
pub proof fn signed_decimal_denotes(i: int)
    ensures
        i >= 0 ==> {
            &&& digits_value(signed_decimal(i)) == i
            &&& forall|k: int| 0 <= k < signed_decimal(i).len() ==> '0' <= #[trigger] signed_decimal(i)[k] <= '9'
            &&& signed_decimal(i).len() > 1 ==> signed_decimal(i)[0] != '0'
        },
        i < 0 ==> {
            let d = signed_decimal(i).drop_first();
            &&& signed_decimal(i)[0] == '-'
            &&& digits_value(d) == -i
            &&& d.len() >= 1
            &&& forall|k: int| 0 <= k < d.len() ==> '0' <= #[trigger] d[k] <= '9'
            &&& d.len() > 1 ==> d[0] != '0'
        },
{
    if i >= 0 {
        lemma_decimal_value(i as nat);
        lemma_decimal_canonical(i as nat);
    } else {
        lemma_decimal_value((-i) as nat);
        lemma_decimal_canonical((-i) as nat);
        assert(signed_decimal(i).drop_first() =~= decimal((-i) as nat));
    }
}

/// Lowercasing keeps the length, turns each ASCII upper-case letter into the
/// same letter in lower case, and keeps every other character.
pub proof fn ascii_lower_changes_only_upper_case(s: Seq<char>)
    ensures
        ascii_lower(s).len() == s.len(),
        forall|k: int|
            0 <= k < s.len() ==> (if 'A' <= s[k] <= 'Z' {
                #[trigger] ascii_lower(s)[k] as int == s[k] as int + 32
            } else {
                ascii_lower(s)[k] == s[k]
            }),
{
}

/// Appends `n` in decimal, left-padded with zeros to `width` characters.
pub fn push_zero_padded(s: &mut String, n: u64, width: usize)
    ensures
        final(s)@ == old(s)@ + zero_padded(decimal(n as nat), width as nat),
{
    let mut digits = String::new();
    push_decimal(&mut digits, n);
    let len = digits.as_str().unicode_len();
    let mut k: usize = len;
    while k < width
        invariant
            len == decimal(n as nat).len(),
            len <= k,
            k == len || k <= width,
            s@ == old(s)@ + zeros((k - len) as nat),
        decreases width - k,
    {
        push_char(s, '0');
        assert(zeros((k + 1 - len) as nat) =~= zeros((k - len) as nat).push('0'));
        k = k + 1;
    }
    s.append(digits.as_str());
    assert(s@ =~= old(s)@ + zero_padded(decimal(n as nat), width as nat));
}

/// Appends `i` as Rust's `Display` writes a signed integer.
pub fn push_signed_decimal(s: &mut String, i: i64)
    ensures
        final(s)@ == old(s)@ + signed_decimal(i as int),
{
    if i < 0 {
        push_char(s, '-');
        let magnitude: u64 = if i == i64::MIN {
            9223372036854775808u64
        } else {
            (-i) as u64
        };
        push_decimal(s, magnitude);
        assert(s@ =~= old(s)@ + signed_decimal(i as int));
    } else {
        push_decimal(s, i as u64);
    }
}

/// Appends `t` to `s`.
pub fn push_str(s: &mut String, t: &str)
    ensures
        final(s)@ == old(s)@ + t@,
{
    s.append(t);
}

/// Whether two strings hold the same characters.
pub fn str_equal(a: &str, b: &str) -> (r: bool)
    ensures
        r == (a@ == b@),
{
    let n = a.unicode_len();
    if n != b.unicode_len() {
        return false;
    }
    let mut k: usize = 0;
    while k < n
        invariant
            n == a@.len(),
            n == b@.len(),
            k <= n,
            forall|j: int| 0 <= j < k ==> a@[j] == b@[j],
        decreases n - k,
    {
        if a.get_char(k) != b.get_char(k) {
            return false;
        }
        k = k + 1;
    }
    assert(a@ =~= b@);
    true
}

/// The ASCII lower-case form of a character: `A`..=`Z` map to `a`..=`z`,
/// every other character is unchanged.
pub open spec fn ascii_lower_char(c: char) -> char {
    if 'A' <= c && c <= 'Z' {
        ((c as int) + 32) as char
    } else {
        c
    }
}

/// The ASCII lower-case form of a text, character by character.
pub open spec fn ascii_lower(s: Seq<char>) -> Seq<char> {
    s.map_values(|c: char| ascii_lower_char(c))
}

/// Whether no character of `s` is an ASCII upper-case letter.
pub open spec fn has_no_ascii_upper(s: Seq<char>) -> bool {
    forall|k: int| 0 <= k < s.len() ==> !('A' <= #[trigger] s[k] && s[k] <= 'Z')
}

/// The ASCII lower-case form of `s`, as `str::to_ascii_lowercase` gives it.
pub fn to_ascii_lowercase(s: &str) -> (r: String)
    ensures
        r@ == ascii_lower(s@),
{
    let n = s.unicode_len();
    let mut r = String::new();
    let mut k: usize = 0;
    while k < n
        invariant
            n == s@.len(),
            k <= n,
            r@ =~= ascii_lower(s@.subrange(0, k as int)),
        decreases n - k,
    {
        let c = s.get_char(k);
        if 'A' <= c && c <= 'Z' {
            let b: u8 = c as u8;
            push_char(&mut r, (b + 32u8) as char);
        } else {
            push_char(&mut r, c);
        }
        assert(s@.subrange(0, k + 1) =~= s@.subrange(0, k as int).push(c));
        k = k + 1;
    }
    assert(s@.subrange(0, n as int) =~= s@);
    r
}

/// The items of `items` with `sep` between each two neighbours.
pub open spec fn joined(items: Seq<Seq<char>>, sep: Seq<char>) -> Seq<char>
    decreases items.len(),
{
    if items.len() == 0 {
        Seq::empty()
    } else if items.len() == 1 {
        items[0]
    } else {
        joined(items.drop_last(), sep) + sep + items.last()
    }
}

/// Lemma: joining two nonempty lists one after the other is joining each and
/// putting one separator between them.
pub proof fn lemma_joined_append(a: Seq<Seq<char>>, b: Seq<Seq<char>>, sep: Seq<char>)
    requires
        a.len() > 0,
        b.len() > 0,
    ensures
        joined(a + b, sep) == joined(a, sep) + sep + joined(b, sep),
    decreases b.len(),
{
    if b.len() == 1 {
        assert((a + b).drop_last() =~= a);
        assert((a + b).last() == b[0]);
    } else {
        lemma_joined_append(a, b.drop_last(), sep);
        assert((a + b).drop_last() =~= a + b.drop_last());
        assert((a + b).last() == b.last());
        assert(joined(a, sep) + sep + joined(b.drop_last(), sep) + sep + b.last() =~= joined(a, sep)
            + sep + (joined(b.drop_last(), sep) + sep + b.last()));
    }
}

/// The views of a list of strings.
pub open spec fn views(items: Seq<String>) -> Seq<Seq<char>> {
    items.map_values(|t: String| t@)
}

/// Joins `items` with `sep` between each two neighbours, as `[String]::join` does.
pub fn join(items: &Vec<String>, sep: &str) -> (r: String)
    ensures
        r@ == joined(views(items@), sep@),
{
    let mut r = String::new();
    let n = items.len();
    let mut k: usize = 0;
    while k < n
        invariant
            n == items@.len(),
            k <= n,
            r@ == joined(views(items@).subrange(0, k as int), sep@),
        decreases n - k,
    {
        let ghost before = views(items@).subrange(0, k as int);
        let ghost after = views(items@).subrange(0, k + 1);
        assert(after.drop_last() =~= before);
        if k > 0 {
            r.append(sep);
        } else {
            assert(before =~= Seq::<Seq<char>>::empty());
        }
        r.append(items[k].as_str());
        k = k + 1;
    }
    assert(views(items@).subrange(0, n as int) =~= views(items@));
    r
}

} // verus!
