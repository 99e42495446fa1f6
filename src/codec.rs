use vstd::prelude::*;
use vstd::string::*;

use crate::ModError;

verus! {

/// The separator between the numeric id and the label of a compound identifier.
pub open spec fn is_sep(c: char) -> bool {
    c == '_'
}

/// Index of the first separator at or after `i`, or the length when there is none.
pub open spec fn first_sep_from(s: Seq<char>, i: int) -> int
    decreases s.len() - i,
{
    if i < 0 || i >= s.len() {
        s.len() as int
    } else if is_sep(s[i]) {
        i
    } else {
        first_sep_from(s, i + 1)
    }
}

pub open spec fn first_sep(s: Seq<char>) -> int {
    first_sep_from(s, 0)
}

/// The part of a compound identifier before its first separator.
pub open spec fn id_part(s: Seq<char>) -> Seq<char> {
    s.subrange(0, first_sep(s))
}

/// The part of a compound identifier after its first separator (empty when there is none).
pub open spec fn label_part(s: Seq<char>) -> Seq<char> {
    if first_sep(s) < s.len() {
        s.subrange(first_sep(s) + 1, s.len() as int)
    } else {
        Seq::empty()
    }
}

pub open spec fn is_digit(c: char) -> bool {
    '0' <= c && c <= '9'
}

pub open spec fn digit_value(c: char) -> int {
    (c as int) - ('0' as int)
}

pub open spec fn all_digits(s: Seq<char>) -> bool {
    forall|i: int| 0 <= i < s.len() ==> is_digit(#[trigger] s[i])
}

/// The number that a string of decimal digits writes.
pub open spec fn digits_value(s: Seq<char>) -> int
    decreases s.len(),
{
    if s.len() == 0 {
        0
    } else {
        digits_value(s.drop_last()) * 10 + digit_value(s.last())
    }
}

/// The digits of an unsigned decimal number, after an optional leading `+`.
pub open spec fn unsigned_digits(s: Seq<char>) -> Seq<char> {
    if s.len() > 0 && s[0] == '+' {
        s.drop_first()
    } else {
        s
    }
}

/// What reading `s` as a `u32` gives: digits only (after an optional `+`), at least one,
/// and a value that fits.
pub open spec fn parse_u32(s: Seq<char>) -> Option<u32> {
    let d = unsigned_digits(s);
    if d.len() > 0 && all_digits(d) && digits_value(d) <= u32::MAX {
        Some(digits_value(d) as u32)
    } else {
        None
    }
}

/// The numeric id that a compound identifier carries.
pub open spec fn decode_id(s: Seq<char>) -> Option<u32> {
    parse_u32(id_part(s))
}

pub open spec fn digit_char(d: int) -> char {
    if d == 0 { '0' }
    else if d == 1 { '1' }
    else if d == 2 { '2' }
    else if d == 3 { '3' }
    else if d == 4 { '4' }
    else if d == 5 { '5' }
    else if d == 6 { '6' }
    else if d == 7 { '7' }
    else if d == 8 { '8' }
    else { '9' }
}

/// The decimal digits of `n`, without leading zeros.
pub open spec fn decimal(n: nat) -> Seq<char>
    decreases n,
{
    if n < 10 {
        seq![digit_char(n as int)]
    } else {
        decimal(n / 10).push(digit_char((n % 10) as int))
    }
}

/// The compound identifier made of a numeric id and an already slugged label.
pub open spec fn compose(id: u32, slug: Seq<char>) -> Seq<char> {
    decimal(id as nat) + seq!['_'] + slug
}

pub proof fn lemma_first_sep_of_prefix(a: Seq<char>, b: Seq<char>, i: int)
    requires
        0 <= i <= a.len(),
        forall|k: int| 0 <= k < a.len() ==> !is_sep(#[trigger] a[k]),
        b.len() > 0,
        is_sep(b[0]),
    ensures
        first_sep_from(a + b, i) == a.len(),
    decreases a.len() - i,
{
    if i < a.len() {
        assert((a + b)[i] == a[i]);
        lemma_first_sep_of_prefix(a, b, i + 1);
    } else {
        assert((a + b)[i] == b[0]);
    }
}

pub proof fn lemma_digit_char(d: int)
    requires
        0 <= d < 10,
    ensures
        is_digit(digit_char(d)),
        digit_value(digit_char(d)) == d,
{
}

pub proof fn lemma_decimal(n: nat)
    ensures
        decimal(n).len() > 0,
        all_digits(decimal(n)),
        digits_value(decimal(n)) == n,
    decreases n,
{
    if n < 10 {
        lemma_digit_char(n as int);
        assert(decimal(n).drop_last() =~= Seq::<char>::empty());
        assert(digits_value(decimal(n)) == digits_value(decimal(n).drop_last()) * 10
            + digit_value(decimal(n).last()));
    } else {
        lemma_digit_char((n % 10) as int);
        lemma_decimal(n / 10);
        let s = decimal(n);
        assert(s.drop_last() == decimal(n / 10));
        assert(s.last() == digit_char((n % 10) as int));
        assert(digits_value(s) == digits_value(s.drop_last()) * 10 + digit_value(s.last()));
        assert((n / 10) * 10 + n % 10 == n);
        assert(all_digits(s)) by {
            assert forall|i: int| 0 <= i < s.len() implies is_digit(#[trigger] s[i]) by {
                if i < s.len() - 1 {
                    assert(s[i] == decimal(n / 10)[i]);
                }
            }
        }
    }
}

/// Reading the numeric id back from a compound identifier gives the id that went in, and
/// its label is exactly the label that went in, whatever that label is.
pub proof fn lemma_id_round_trip(id: u32, label: Seq<char>)
    ensures
        decode_id(compose(id, label)) == Some(id),
        id_part(compose(id, label)) == decimal(id as nat),
        label_part(compose(id, label)) == label,
{
    let d = decimal(id as nat);
    lemma_decimal(id as nat);
    assert forall|k: int| 0 <= k < d.len() implies !is_sep(#[trigger] d[k]) by {
        assert(is_digit(d[k]));
    }
    let s = compose(id, label);
    assert(s == d + (seq!['_'] + label));
    lemma_first_sep_of_prefix(d, seq!['_'] + label, 0);
    assert(id_part(s) == d);
    assert(label_part(s) =~= label);
    assert(is_digit(d[0]));
}

/// A character that a slug may hold.
pub open spec fn is_slug_char(c: char) -> bool {
    ('a' <= c && c <= 'z') || is_digit(c) || c == '-'
}

/// A slug: lower-case ASCII letters, digits and single dashes, no dash at either end.
pub open spec fn is_slug(s: Seq<char>) -> bool {
    &&& forall|i: int| 0 <= i < s.len() ==> is_slug_char(#[trigger] s[i])
    &&& s.len() > 0 ==> s[0] != '-' && s.last() != '-'
    &&& forall|i: int| 0 <= i < s.len() - 1 ==> !(#[trigger] s[i] == '-' && s[i + 1] == '-')
}

/// A token that is safe in a URL path or a file name: slug characters and the separator.
pub open spec fn is_safe_token(s: Seq<char>) -> bool {
    forall|i: int| 0 <= i < s.len() ==> is_slug_char(#[trigger] s[i]) || is_sep(s[i])
}

/// What `slug::slugify` makes of a string.
pub uninterp spec fn slug_of(s: Seq<char>) -> Seq<char>;

/// Relies on `slug::slugify`: its result is a slug (a-z, 0-9 and single dashes, never at
/// either end), and slugifying a slug gives it back unchanged.
#[verifier::external_body]
fn slugify(s: &str) -> (r: String)
    ensures
        r@ == slug_of(s@),
        is_slug(r@),
        slug_of(r@) == r@,
{
    slug::slugify(s)
}

/// Index of the first separator in `s`, or its length when there is none.
pub fn first_sep_index(s: &str) -> (r: usize)
    ensures
        r == first_sep(s@),
        r <= s@.len(),
{
    let n = s.unicode_len();
    let mut i: usize = 0;
    while i < n
        invariant
            n == s@.len(),
            i <= n,
            first_sep(s@) == first_sep_from(s@, i as int),
        decreases n - i,
    {
        if s.get_char(i) == '_' {
            return i;
        }
        i = i + 1;
    }
    i
}

pub proof fn lemma_digits_nonneg(s: Seq<char>)
    requires
        all_digits(s),
    ensures
        digits_value(s) >= 0,
    decreases s.len(),
{
    if s.len() > 0 {
        assert(is_digit(s[s.len() - 1]));
        lemma_digits_nonneg(s.drop_last());
    }
}

pub proof fn lemma_digits_grow(s: Seq<char>, j: int, k: int)
    requires
        all_digits(s),
        0 <= j <= k <= s.len(),
    ensures
        digits_value(s.subrange(0, k)) >= digits_value(s.subrange(0, j)),
    decreases k - j,
{
    if j < k {
        lemma_digits_grow(s, j, k - 1);
        let p = s.subrange(0, k);
        assert(p.drop_last() =~= s.subrange(0, k - 1));
        assert(all_digits(s.subrange(0, k - 1)));
        lemma_digits_nonneg(s.subrange(0, k - 1));
        assert(is_digit(p.last()));
    }
}

/// Reads `s` as a `u32` in decimal: digits only, after an optional `+`.
pub fn parse_decimal(s: &str) -> (r: Option<u32>)
    ensures
        r == parse_u32(s@),
{
    let n = s.unicode_len();
    let start: usize = if n > 0 && s.get_char(0) == '+' { 1 } else { 0 };
    let ghost d = unsigned_digits(s@);
    assert(d =~= s@.subrange(start as int, n as int));
    if start >= n {
        return None;
    }
    let mut acc: u64 = 0;
    let mut i: usize = start;
    while i < n
        invariant
            n == s@.len(),
            start <= i <= n,
            d == s@.subrange(start as int, n as int),
            d == unsigned_digits(s@),
            all_digits(d.subrange(0, i - start)),
            acc == digits_value(d.subrange(0, i - start)),
            acc <= u32::MAX,
        decreases n - i,
    {
        let c = s.get_char(i);
        if !('0' <= c && c <= '9') {
            assert(d[i - start] == c);
            assert(!is_digit(d[i - start]));
            return None;
        }
        let ghost p = d.subrange(0, i - start + 1);
        assert(p.drop_last() =~= d.subrange(0, i - start));
        assert(p.last() == c);
        assert(all_digits(p));
        let v: u64 = (c as u32 - '0' as u32) as u64;
        assert(v == digit_value(c));
        acc = acc * 10 + v;
        assert(acc == digits_value(p));
        if acc > u32::MAX as u64 {
            proof {
                if all_digits(d) {
                    lemma_digits_grow(d, i - start + 1, d.len() as int);
                    assert(d.subrange(0, d.len() as int) =~= d);
                }
            }
            return None;
        }
        i = i + 1;
    }
    assert(d.subrange(0, n - start) =~= d);
    Some(acc as u32)
}

/// The numeric id of a compound identifier: what stands before its first separator, read
/// as a `u32`.
pub fn get_id(string: &str) -> (r: Result<u32, ModError>)
    ensures
        match decode_id(string@) {
            Some(id) => r == Ok::<u32, ModError>(id),
            None => r == Err::<u32, ModError>(ModError::MalformedIdentifier),
        },
{
    let k = first_sep_index(string);
    let head = string.substring_char(0, k);
    match parse_decimal(head) {
        Some(id) => Ok(id),
        None => Err(ModError::MalformedIdentifier),
    }
}

/// The label of a compound identifier: everything after its first separator, or the empty
/// string when it has none.
pub fn get_name(string: &str) -> (r: String)
    ensures
        r@ == label_part(string@),
{
    let k = first_sep_index(string);
    let n = string.unicode_len();
    if k < n {
        String::from_str(string.substring_char(k + 1, n))
    } else {
        String::new()
    }
}

fn digit_str(d: u32) -> (r: &'static str)
    requires
        d < 10,
    ensures
        r@ == seq![digit_char(d as int)],
{
    proof {
        reveal_strlit("0");
        reveal_strlit("1");
        reveal_strlit("2");
        reveal_strlit("3");
        reveal_strlit("4");
        reveal_strlit("5");
        reveal_strlit("6");
        reveal_strlit("7");
        reveal_strlit("8");
        reveal_strlit("9");
    }
    let r = if d == 0 { "0" }
    else if d == 1 { "1" }
    else if d == 2 { "2" }
    else if d == 3 { "3" }
    else if d == 4 { "4" }
    else if d == 5 { "5" }
    else if d == 6 { "6" }
    else if d == 7 { "7" }
    else if d == 8 { "8" }
    else { "9" };
    assert(r@ =~= seq![digit_char(d as int)]);
    r
}

/// The decimal digits of `n`.
pub fn decimal_string(n: u32) -> (r: String)
    ensures
        r@ == decimal(n as nat),
    decreases n,
{
    if n < 10 {
        String::from_str(digit_str(n))
    } else {
        let mut s = decimal_string(n / 10);
        s.append(digit_str(n % 10));
        proof {
            assert(decimal(n as nat) == decimal((n / 10) as nat).push(digit_char((n % 10) as int)));
        }
        assert(s@ =~= decimal(n as nat));
        s
    }
}

/// The compound identifier of `id` with a label that is already a slug.
pub fn compose_id(id: u32, slug: &str) -> (r: String)
    ensures
        r@ == compose(id, slug@),
{
    let mut s = decimal_string(id);
    proof { reveal_strlit("_"); }
    s.append("_");
    s.append(slug);
    assert(s@ =~= compose(id, slug@));
    s
}

/// Encodes `id` and `label` as a compound identifier `<id>_<slug of label>`. The token holds
/// only characters that are safe in a path, and encoding it again with its own label gives
/// it back unchanged.
pub fn encode_id(id: u32, label: &str) -> (r: String)
    ensures
        r@ == compose(id, slug_of(label@)),
        is_safe_token(r@),
        compose(id, slug_of(label_part(r@))) == r@,
{
    let slug = slugify(label);
    let r = compose_id(id, slug.as_str());
    proof { lemma_compose_parts(id, slug@); }
    r
}

/// A compound identifier made with a slug holds only path-safe characters.
pub proof fn lemma_compose_parts(id: u32, slug: Seq<char>)
    requires
        is_slug(slug),
    ensures
        label_part(compose(id, slug)) == slug,
        is_safe_token(compose(id, slug)),
{
    lemma_id_round_trip(id, slug);
    lemma_decimal(id as nat);
    let d = decimal(id as nat);
    let s = compose(id, slug);
    assert forall|i: int| 0 <= i < s.len() implies is_slug_char(#[trigger] s[i]) || is_sep(s[i]) by {
        if i < d.len() {
            assert(s[i] == d[i]);
            assert(is_digit(d[i]));
        } else if i > d.len() {
            assert(s[i] == slug[i - d.len() - 1]);
        }
    }
}

} // verus!
