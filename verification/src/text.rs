//! Character-level text building: decimal numbers, quoting, and the
//! conversions between `String` and character vectors that the command and
//! label builders rely on.

use vstd::prelude::*;

verus! {

broadcast use vstd::seq_lib::group_seq_properties;

/// The decimal digit character for `d < 10`.
pub open spec fn digit_char(d: nat) -> char {
    if d == 0 { '0' }
    else if d == 1 { '1' }
    else if d == 2 { '2' }
    else if d == 3 { '3' }
    else if d == 4 { '4' }
    else if d == 5 { '5' }
    else if d == 6 { '6' }
    else if d == 7 { '7' }
    else if d == 8 { '8' }
    else { '9' }
}

/// Decimal digits of `n`, most significant first, without leading zeros.
pub open spec fn decimal(n: nat) -> Seq<char>
    decreases n,
{
    if n < 10 {
        seq![digit_char(n)]
    } else {
        decimal(n / 10).push(digit_char(n % 10))
    }
}

/// Decimal text of a signed integer, with a leading `-` when negative.
pub open spec fn signed_decimal(n: int) -> Seq<char> {
    if n < 0 {
        seq!['-'] + decimal((-n) as nat)
    } else {
        decimal(n as nat)
    }
}

/// `s` with every double quote preceded by a backslash.
pub open spec fn escape_quotes(s: Seq<char>) -> Seq<char>
    decreases s.len(),
{
    if s.len() == 0 {
        s
    } else if s.last() == '"' {
        escape_quotes(s.drop_last()) + seq!['\\', '"']
    } else {
        escape_quotes(s.drop_last()).push(s.last())
    }
}

/// Appends `c` to `s` (`String::push`).
#[verifier::external_body]
pub(crate) fn push_char(s: &mut String, c: char)
    ensures
        final(s)@ == old(s)@.push(c),
{
    s.push(c);
}

/// Appends the characters of `t` to `s`.
pub fn push_str(s: &mut String, t: &str)
    ensures
        final(s)@ == old(s)@ + t@,
{
    s.append(t);
}

/// The characters of `s`, one per element.
pub fn chars_of(s: &str) -> (r: Vec<char>)
    ensures
        r@ == s@,
{
    let n = s.unicode_len();
    let mut r: Vec<char> = Vec::new();
    let mut i: usize = 0;
    while i < n
        invariant
            n == s@.len(),
            i <= n,
            r@ == s@.take(i as int),
        decreases n - i,
    {
        let c = s.get_char(i);
        r.push(c);
        i += 1;
        assert(r@ =~= s@.take(i as int));
    }
    assert(s@.take(n as int) =~= s@);
    r
}

/// A `String` holding the characters of `v`.
pub fn string_of(v: &Vec<char>) -> (r: String)
    ensures
        r@ == v@,
{
    let mut r = String::new();
    let mut i: usize = 0;
    while i < v.len()
        invariant
            i <= v.len(),
            r@ == v@.take(i as int),
        decreases v.len() - i,
    {
        push_char(&mut r, v[i]);
        i += 1;
        assert(r@ =~= v@.take(i as int));
    }
    assert(v@.take(v.len() as int) =~= v@);
    r
}

/// Appends the characters of `v` to `s`.
pub fn push_chars(s: &mut String, v: &Vec<char>)
    ensures
        final(s)@ == old(s)@ + v@,
{
    let ghost start = s@;
    let mut i: usize = 0;
    while i < v.len()
        invariant
            i <= v.len(),
            s@ == start + v@.take(i as int),
        decreases v.len() - i,
    {
        push_char(s, v[i]);
        i += 1;
        assert(s@ =~= start + v@.take(i as int));
    }
    assert(v@.take(v.len() as int) =~= v@);
}

fn digit(d: u64) -> (c: char)
    requires
        d < 10,
    ensures
        c == digit_char(d as nat),
{
    if d == 0 { '0' }
    else if d == 1 { '1' }
    else if d == 2 { '2' }
    else if d == 3 { '3' }
    else if d == 4 { '4' }
    else if d == 5 { '5' }
    else if d == 6 { '6' }
    else if d == 7 { '7' }
    else if d == 8 { '8' }
    else { '9' }
}

/// Appends the decimal digits of `n`.
pub fn push_decimal(s: &mut String, n: u64)
    ensures
        final(s)@ == old(s)@ + decimal(n as nat),
    decreases n,
{
    if n < 10 {
        push_char(s, digit(n));
        assert(decimal(n as nat) =~= seq![digit_char(n as nat)]);
    } else {
        let ghost start = s@;
        push_decimal(s, n / 10);
        push_char(s, digit(n % 10));
        assert(s@ =~= start + decimal(n as nat));
    }
}

/// Appends the decimal text of a signed integer.
pub fn push_signed_decimal(s: &mut String, n: i64)
    ensures
        final(s)@ == old(s)@ + signed_decimal(n as int),
{
    if n < 0 {
        let ghost start = s@;
        push_char(s, '-');
        let m: i128 = 0 - (n as i128);
        push_decimal(s, m as u64);
        assert(s@ =~= start + signed_decimal(n as int));
    } else {
        push_decimal(s, n as u64);
    }
}

/// Appends `t` with every double quote preceded by a backslash.
pub fn push_escaped_quotes(s: &mut String, t: &str)
    ensures
        final(s)@ == old(s)@ + escape_quotes(t@),
{
    let cs = chars_of(t);
    let ghost start = s@;
    let mut i: usize = 0;
    while i < cs.len()
        invariant
            i <= cs.len(),
            cs@ == t@,
            s@ == start + escape_quotes(cs@.take(i as int)),
        decreases cs.len() - i,
    {
        let c = cs[i];
        assert(cs@.take(i as int + 1).drop_last() =~= cs@.take(i as int));
        if c == '"' {
            push_char(s, '\\');
            push_char(s, '"');
        } else {
            push_char(s, c);
        }
        i += 1;
        assert(s@ =~= start + escape_quotes(cs@.take(i as int)));
    }
    assert(cs@.take(cs.len() as int) =~= cs@);
}

/// `c` with ASCII letters `A`..`Z` mapped to `a`..`z`.
pub open spec fn lower_char(c: char) -> char {
    if 'A' <= c && c <= 'Z' {
        ((c as u32) + 32) as char
    } else {
        c
    }
}

/// `s` with its ASCII letters lowered, other characters unchanged.
pub open spec fn lower_ascii(s: Seq<char>) -> Seq<char> {
    s.map_values(|c: char| lower_char(c))
}

/// `needle` occurs in `hay` as a contiguous run (always, when empty).
pub open spec fn has_substring(hay: Seq<char>, needle: Seq<char>) -> bool {
    exists|i: int| 0 <= i && i + needle.len() <= hay.len() && #[trigger] hay.subrange(i, i + needle.len()) == needle
}

/// `c` with an ASCII uppercase letter lowered, as `char::to_ascii_lowercase`
/// does; every other character is returned as is.
pub(crate) fn char_to_ascii_lowercase(c: char) -> (r: char)
    ensures
        r == lower_char(c),
{
    if 'A' <= c && c <= 'Z' {
        let b: u8 = (c as u8) + 32;
        assert(b as char == ((c as u32) + 32) as char);
        b as char
    } else {
        c
    }
}

/// The characters of `s` with ASCII letters lowered.
pub fn lowercase_chars(s: &str) -> (r: Vec<char>)
    ensures
        r@ == lower_ascii(s@),
{
    let cs = chars_of(s);
    let mut r: Vec<char> = Vec::new();
    let mut i: usize = 0;
    while i < cs.len()
        invariant
            i <= cs@.len(),
            cs@ == s@,
            r@ == lower_ascii(cs@.take(i as int)),
        decreases cs.len() - i,
    {
        r.push(char_to_ascii_lowercase(cs[i]));
        i += 1;
        assert(r@ =~= lower_ascii(cs@.take(i as int)));
    }
    assert(cs@.take(i as int) =~= cs@);
    r
}

/// Whether two character vectors are equal.
pub fn chars_eq(a: &Vec<char>, b: &Vec<char>) -> (r: bool)
    ensures
        r == (a@ == b@),
{
    if a.len() != b.len() {
        return false;
    }
    let mut i: usize = 0;
    while i < a.len()
        invariant
            a@.len() == b@.len(),
            i <= a@.len(),
            forall|k: int| 0 <= k < i ==> a@[k] == b@[k],
        decreases a.len() - i,
    {
        if a[i] != b[i] {
            return false;
        }
        i += 1;
    }
    assert(a@ =~= b@);
    true
}

/// Whether `needle` occurs in `hay`.
pub fn contains_chars(hay: &Vec<char>, needle: &Vec<char>) -> (r: bool)
    ensures
        r == has_substring(hay@, needle@),
{
    let n = needle.len();
    if n > hay.len() {
        assert forall|i: int| 0 <= i && i + n <= hay@.len() implies #[trigger] hay@.subrange(i, i + n) != needle@ by {}
        return false;
    }
    let len = hay.len();
    let last = len - n;
    let mut i: usize = 0;
    loop
        invariant
            len == hay@.len(),
            n == needle@.len(),
            n <= hay@.len(),
            last == hay@.len() - n,
            i <= last,
            forall|k: int| 0 <= k < i ==> #[trigger] hay@.subrange(k, k + n) != needle@,
        decreases last - i,
    {
        let mut j: usize = 0;
        let mut same = true;
        while j < n
            invariant
                len == hay@.len(),
                n == needle@.len(),
                n <= hay@.len(),
                last == hay@.len() - n,
                i <= last,
                j <= n,
                same == (forall|q: int| 0 <= q < j ==> hay@[i + q] == needle@[q]),
            decreases n - j,
        {
            if hay[i + j] != needle[j] {
                same = false;
            }
            j += 1;
        }
        if same {
            assert(hay@.subrange(i as int, i + n) =~= needle@);
            return true;
        }
        assert(hay@.subrange(i as int, i + n) != needle@) by {
            let q = choose|q: int| 0 <= q < n && hay@[i + q] != needle@[q];
            assert(hay@.subrange(i as int, i + n)[q] == hay@[i + q]);
        }
        if i == last {
            return false;
        }
        i += 1;
    }
}

/// `prefix` is a prefix of `s`.
pub open spec fn has_prefix(s: Seq<char>, prefix: Seq<char>) -> bool {
    prefix.len() <= s.len() && s.take(prefix.len() as int) == prefix
}

/// Whether `s` starts with `prefix`.
pub fn starts_with_chars(s: &Vec<char>, prefix: &Vec<char>) -> (r: bool)
    ensures
        r == has_prefix(s@, prefix@),
{
    if prefix.len() > s.len() {
        return false;
    }
    let mut i: usize = 0;
    while i < prefix.len()
        invariant
            prefix@.len() <= s@.len(),
            i <= prefix@.len(),
            forall|k: int| 0 <= k < i ==> s@[k] == prefix@[k],
        decreases prefix.len() - i,
    {
        if s[i] != prefix[i] {
            assert(s@.take(prefix@.len() as int)[i as int] != prefix@[i as int]);
            return false;
        }
        i += 1;
    }
    assert(s@.take(prefix@.len() as int) =~= prefix@);
    true
}

/// Full Unicode lowercase mapping of a string, as `str::to_lowercase`
/// computes it.
pub uninterp spec fn unicode_lower(s: Seq<char>) -> Seq<char>;

/// The characters with the Unicode `White_Space` property.
pub open spec fn is_white_space(c: char) -> bool {
    let u = c as u32;
    ||| 0x9 <= u && u <= 0xd
    ||| u == 0x20
    ||| u == 0x85
    ||| u == 0xa0
    ||| u == 0x1680
    ||| 0x2000 <= u && u <= 0x200a
    ||| u == 0x2028
    ||| u == 0x2029
    ||| u == 0x202f
    ||| u == 0x205f
    ||| u == 0x3000
}

/// Whether `c` is Unicode whitespace (what `char::is_whitespace` tests).
pub fn is_whitespace(c: char) -> (r: bool)
    ensures
        r == is_white_space(c),
{
    let u = c as u32;
    (0x9 <= u && u <= 0xd) || u == 0x20 || u == 0x85 || u == 0xa0 || u == 0x1680 || (0x2000 <= u
        && u <= 0x200a) || u == 0x2028 || u == 0x2029 || u == 0x202f || u == 0x205f || u == 0x3000
}

/// `s` without its leading whitespace.
pub open spec fn trim_start_ws(s: Seq<char>) -> Seq<char>
    decreases s.len(),
{
    if s.len() > 0 && is_white_space(s[0]) {
        trim_start_ws(s.drop_first())
    } else {
        s
    }
}

/// `s` without its trailing whitespace.
pub open spec fn trim_end_ws(s: Seq<char>) -> Seq<char>
    decreases s.len(),
{
    if s.len() > 0 && is_white_space(s.last()) {
        trim_end_ws(s.drop_last())
    } else {
        s
    }
}

/// `s` without leading and trailing whitespace.
pub open spec fn trim_ws(s: Seq<char>) -> Seq<char> {
    trim_end_ws(trim_start_ws(s))
}

/// Skipping `k` leading whitespace characters, where the next is not
/// whitespace, is what `trim_start_ws` does.
pub proof fn lemma_trim_start_at(s: Seq<char>, k: int)
    requires
        0 <= k <= s.len(),
        forall|j: int| 0 <= j < k ==> is_white_space(#[trigger] s[j]),
        k == s.len() || !is_white_space(s[k]),
    ensures
        trim_start_ws(s) == s.skip(k),
    decreases k,
{
    if k == 0 {
        assert(s.skip(0) =~= s);
    } else {
        let d = s.drop_first();
        assert forall|j: int| 0 <= j < k - 1 implies is_white_space(#[trigger] d[j]) by {
            assert(d[j] == s[j + 1]);
        }
        if k < s.len() {
            assert(d[k - 1] == s[k]);
        }
        lemma_trim_start_at(d, k - 1);
        assert(d.skip(k - 1) =~= s.skip(k));
    }
}

/// `v` from index `from` on, without its leading whitespace.
pub fn trim_start_from(v: &Vec<char>, from: usize) -> (r: Vec<char>)
    requires
        from <= v@.len(),
    ensures
        r@ == trim_start_ws(v@.skip(from as int)),
{
    let mut k: usize = from;
    while k < v.len() && is_whitespace(v[k])
        invariant
            from <= k <= v@.len(),
            forall|j: int| from <= j < k ==> is_white_space(#[trigger] v@[j]),
        decreases v.len() - k,
    {
        k += 1;
    }
    let ghost t = v@.skip(from as int);
    proof {
        assert forall|j: int| 0 <= j < k - from implies is_white_space(#[trigger] t[j]) by {
            assert(t[j] == v@[from + j]);
        }
        if k < v@.len() {
            assert(t[k - from] == v@[k as int]);
        }
        lemma_trim_start_at(t, k - from);
        assert(t.skip(k - from) =~= v@.skip(k as int));
    }
    slice_chars(v, k, v.len())
}

/// Dropping the whitespace after position `k`, where the character before
/// it is not whitespace, is what `trim_end_ws` does.
pub proof fn lemma_trim_end_at(s: Seq<char>, k: int)
    requires
        0 <= k <= s.len(),
        forall|j: int| k <= j < s.len() ==> is_white_space(#[trigger] s[j]),
        k == 0 || !is_white_space(s[k - 1]),
    ensures
        trim_end_ws(s) == s.take(k),
    decreases s.len() - k,
{
    if k == s.len() {
        assert(s.take(k) =~= s);
    } else {
        let d = s.drop_last();
        assert forall|j: int| k <= j < d.len() implies is_white_space(#[trigger] d[j]) by {
            assert(d[j] == s[j]);
        }
        if k > 0 {
            assert(d[k - 1] == s[k - 1]);
        }
        assert(is_white_space(s[s.len() - 1]));
        lemma_trim_end_at(d, k);
        assert(d.take(k) =~= s.take(k));
    }
}

/// `v` without leading and trailing whitespace.
pub fn trim_chars(v: &Vec<char>) -> (r: Vec<char>)
    ensures
        r@ == trim_ws(v@),
{
    let t = trim_start_from(v, 0);
    assert(v@.skip(0) =~= v@);
    let mut k: usize = t.len();
    while k > 0 && is_whitespace(t[k - 1])
        invariant
            k <= t@.len(),
            forall|j: int| k <= j < t@.len() ==> is_white_space(#[trigger] t@[j]),
        decreases k,
    {
        k -= 1;
    }
    proof {
        lemma_trim_end_at(t@, k as int);
    }
    slice_chars(&t, 0, k)
}

/// The characters of `v` from `from` up to `to`.
pub fn slice_chars(v: &Vec<char>, from: usize, to: usize) -> (r: Vec<char>)
    requires
        from <= to <= v@.len(),
    ensures
        r@ == v@.subrange(from as int, to as int),
{
    let mut r: Vec<char> = Vec::new();
    let mut i: usize = from;
    while i < to
        invariant
            from <= i <= to,
            to <= v@.len(),
            r@ == v@.subrange(from as int, i as int),
        decreases to - i,
    {
        r.push(v[i]);
        i += 1;
        assert(r@ =~= v@.subrange(from as int, i as int));
    }
    r
}

/// Whether `c` is alphabetic or numeric in Unicode, as
/// `char::is_alphanumeric` decides it.
pub uninterp spec fn unicode_alphanumeric(c: char) -> bool;

/// `str::to_lowercase`: the Unicode lowercase of `s`; the result depends on
/// `s` alone.
#[verifier::external_body]
pub(crate) fn to_lowercase(s: &str) -> (r: String)
    ensures
        r@ == unicode_lower(s@),
{
    s.to_lowercase()
}

/// `s` without leading and trailing Unicode whitespace, as `str::trim`
/// gives it.
pub(crate) fn trim(s: &str) -> (r: String)
    ensures
        r@ == trim_ws(s@),
{
    string_of(&trim_chars(&chars_of(s)))
}

/// `char::is_alphanumeric`: whether `c` is alphabetic or numeric; the
/// result depends on `c` alone.
#[verifier::external_body]
pub(crate) fn is_alphanumeric(c: char) -> (r: bool)
    ensures
        r == unicode_alphanumeric(c),
{
    c.is_alphanumeric()
}

/// `a` comes before `b` in code-point lexicographic order (the order of
/// `String`'s `Ord`).
pub open spec fn chars_before(a: Seq<char>, b: Seq<char>) -> bool
    decreases a.len(),
{
    if a.len() == 0 {
        b.len() > 0
    } else if b.len() == 0 {
        false
    } else if a[0] != b[0] {
        a[0] < b[0]
    } else {
        chars_before(a.drop_first(), b.drop_first())
    }
}

proof fn lemma_chars_before_asym(a: Seq<char>, b: Seq<char>)
    ensures
        chars_before(a, b) ==> !chars_before(b, a),
    decreases a.len(),
{
    if a.len() > 0 && b.len() > 0 && a[0] == b[0] {
        lemma_chars_before_asym(a.drop_first(), b.drop_first());
    }
}

proof fn lemma_chars_before_total(a: Seq<char>, b: Seq<char>)
    ensures
        a != b ==> chars_before(a, b) || chars_before(b, a),
    decreases a.len(),
{
    if a.len() > 0 && b.len() > 0 && a[0] == b[0] {
        lemma_chars_before_total(a.drop_first(), b.drop_first());
        if a.drop_first() == b.drop_first() {
            assert(a =~= seq![a[0]] + a.drop_first());
            assert(b =~= seq![b[0]] + b.drop_first());
        }
    } else if a.len() > 0 && b.len() > 0 {
    } else if a.len() == 0 && b.len() == 0 {
        assert(a =~= b);
    }
}

proof fn lemma_chars_before_trans(a: Seq<char>, b: Seq<char>, c: Seq<char>)
    ensures
        chars_before(a, b) && chars_before(b, c) ==> chars_before(a, c),
    decreases a.len(),
{
    if a.len() > 0 && b.len() > 0 && c.len() > 0 && a[0] == b[0] && b[0] == c[0] {
        lemma_chars_before_trans(a.drop_first(), b.drop_first(), c.drop_first());
    }
}

/// Code-point lexicographic order is a strict total order: never both
/// ways, one way between different texts, and transitive.
pub proof fn lemma_chars_before_order(a: Seq<char>, b: Seq<char>, c: Seq<char>)
    ensures
        chars_before(a, b) ==> !chars_before(b, a),
        a != b ==> chars_before(a, b) || chars_before(b, a),
        chars_before(a, b) && chars_before(b, c) ==> chars_before(a, c),
        !chars_before(a, b) && !chars_before(b, c) ==> !chars_before(a, c),
{
    lemma_chars_before_asym(a, b);
    lemma_chars_before_asym(a, c);
    lemma_chars_before_asym(b, c);
    lemma_chars_before_total(a, b);
    lemma_chars_before_total(b, c);
    lemma_chars_before_trans(a, b, c);
    lemma_chars_before_trans(c, b, a);
}

/// Whether `a` comes before `b` in code-point lexicographic order.
pub fn chars_less(a: &Vec<char>, b: &Vec<char>) -> (r: bool)
    ensures
        r == chars_before(a@, b@),
{
    let mut i: usize = 0;
    while i < a.len() && i < b.len()
        invariant
            i <= a@.len(),
            i <= b@.len(),
            chars_before(a@, b@) == chars_before(a@.skip(i as int), b@.skip(i as int)),
        decreases a.len() - i,
    {
        let ghost sa = a@.skip(i as int);
        let ghost sb = b@.skip(i as int);
        assert(sa[0] == a@[i as int] && sb[0] == b@[i as int]);
        if a[i] != b[i] {
            return a[i] < b[i];
        }
        assert(sa.drop_first() =~= a@.skip(i as int + 1));
        assert(sb.drop_first() =~= b@.skip(i as int + 1));
        i += 1;
    }
    if i == a.len() {
        assert(a@.skip(i as int).len() == 0);
        i < b.len()
    } else {
        assert(b@.skip(i as int).len() == 0);
        false
    }
}


// ---------------------------------------------------------------------------
// Reading decimal numbers.
// ---------------------------------------------------------------------------

/// Every character of `s` is an ASCII digit.
pub open spec fn all_digits(s: Seq<char>) -> bool {
    forall|i: int| 0 <= i < s.len() ==> '0' <= #[trigger] s[i] && s[i] <= '9'
}

/// The number the ASCII digits `s` spell, most significant first.
pub open spec fn digits_value(s: Seq<char>) -> int
    decreases s.len(),
{
    if s.len() == 0 {
        0
    } else {
        digits_value(s.drop_last()) * 10 + ((s.last() as u32) - ('0' as u32))
    }
}

/// What `i32::from_str` gives: an optional `+` or `-`, then one or more
/// ASCII digits, the value in range of `i32`; `None` otherwise.
pub open spec fn parse_i32_spec(s: Seq<char>) -> Option<i32> {
    let neg = s.len() > 0 && s[0] == '-';
    let digits = if s.len() > 0 && (s[0] == '-' || s[0] == '+') {
        s.drop_first()
    } else {
        s
    };
    if digits.len() == 0 || !all_digits(digits) {
        None
    } else {
        let v = if neg {
            -digits_value(digits)
        } else {
            digits_value(digits)
        };
        if i32::MIN <= v && v <= i32::MAX {
            Some(v as i32)
        } else {
            None
        }
    }
}

proof fn lemma_digits_value_prefix(s: Seq<char>, k: int)
    requires
        all_digits(s),
        0 <= k <= s.len(),
    ensures
        0 <= digits_value(s.take(k)) <= digits_value(s),
    decreases s.len(),
{
    if k == s.len() {
        assert(s.take(k) =~= s);
        lemma_digits_value_nonneg(s);
    } else {
        let d = s.drop_last();
        assert(all_digits(d)) by {
            assert forall|i: int| 0 <= i < d.len() implies '0' <= #[trigger] d[i] && d[i] <= '9' by {
                assert(d[i] == s[i]);
            }
        }
        lemma_digits_value_prefix(d, k);
        assert(d.take(k) =~= s.take(k));
        assert(s[s.len() - 1] == s.last());
    }
}

proof fn lemma_digits_value_nonneg(s: Seq<char>)
    requires
        all_digits(s),
    ensures
        digits_value(s) >= 0,
    decreases s.len(),
{
    if s.len() > 0 {
        let d = s.drop_last();
        assert(all_digits(d)) by {
            assert forall|i: int| 0 <= i < d.len() implies '0' <= #[trigger] d[i] && d[i] <= '9' by {
                assert(d[i] == s[i]);
            }
        }
        lemma_digits_value_nonneg(d);
        assert(s[s.len() - 1] == s.last());
    }
}

proof fn lemma_digits_step(d: Seq<char>, k: int)
    requires
        0 <= k < d.len(),
        all_digits(d.take(k)),
        '0' <= d[k] && d[k] <= '9',
    ensures
        all_digits(d.take(k + 1)),
        digits_value(d.take(k + 1)) == digits_value(d.take(k)) * 10 + ((d[k] as u32) - ('0' as u32)),
{
    let pre = d.take(k + 1);
    assert(pre.drop_last() =~= d.take(k));
    assert(pre.last() == d[k]);
    assert forall|j: int| 0 <= j < pre.len() implies '0' <= #[trigger] pre[j] && pre[j] <= '9' by {
        if j < k {
            assert(pre[j] == d.take(k)[j]);
        }
    }
}

proof fn lemma_digit_char_value(d: nat)
    requires
        d < 10,
    ensures
        '0' <= digit_char(d) && digit_char(d) <= '9',
        (digit_char(d) as u32) - ('0' as u32) == d,
{
}

/// The decimal text of `n` reads back as `n`: it is all digits, and
/// their value is `n`.
pub proof fn lemma_decimal_reads_back(n: nat)
    ensures
        decimal(n).len() > 0,
        all_digits(decimal(n)),
        digits_value(decimal(n)) == n,
    decreases n,
{
    if n < 10 {
        lemma_digit_char_value(n);
        let s = decimal(n);
        assert(s.drop_last() =~= Seq::<char>::empty());
        assert(s.last() == digit_char(n));
        assert(digits_value(s) == digits_value(s.drop_last()) * 10 + ((s.last() as u32) - ('0' as u32)));
    } else {
        lemma_decimal_reads_back(n / 10);
        lemma_digit_char_value(n % 10);
        let s = decimal(n);
        assert(s.drop_last() =~= decimal(n / 10));
        assert(s.last() == digit_char(n % 10));
        assert(n == (n / 10) * 10 + n % 10) by (nonlinear_arith);
        assert(digits_value(s) == digits_value(decimal(n / 10)) * 10 + ((s.last() as u32) - ('0' as u32)));
        assert forall|i: int| 0 <= i < s.len() implies '0' <= #[trigger] s[i] && s[i] <= '9' by {
            if i < s.len() - 1 {
                assert(s[i] == decimal(n / 10)[i]);
            }
        }
    }
}

/// A number written out in decimal parses back to itself, for every
/// value `i32` can hold from 0 up.
pub proof fn law_parse_i32_of_decimal(n: nat)
    requires
        n <= i32::MAX,
    ensures
        parse_i32_spec(decimal(n)) == Some(n as i32),
{
    lemma_decimal_reads_back(n);
    let s = decimal(n);
    assert('0' <= s[0] && s[0] <= '9');
}

/// `s` read as an `i32`, as `str::parse::<i32>` reads it.
pub fn parse_i32(s: &str) -> (r: Option<i32>)
    ensures
        r == parse_i32_spec(s@),
{
    let cs = chars_of(s);
    let n = cs.len();
    let neg = n > 0 && cs[0] == '-';
    let start: usize = if n > 0 && (cs[0] == '-' || cs[0] == '+') {
        1
    } else {
        0
    };
    let ghost digits = if s@.len() > 0 && (s@[0] == '-' || s@[0] == '+') {
        s@.drop_first()
    } else {
        s@
    };
    assert(digits =~= cs@.skip(start as int));
    if start == n {
        return None;
    }
    let mut acc: i64 = 0;
    let mut i: usize = start;
    while i < n
        invariant
            n == cs@.len(),
            cs@ == s@,
            start <= i <= n,
            digits == cs@.skip(start as int),
            digits == (if s@.len() > 0 && (s@[0] == '-' || s@[0] == '+') {
                s@.drop_first()
            } else {
                s@
            }),
            neg == (s@.len() > 0 && s@[0] == '-'),
            all_digits(digits.take(i - start)),
            acc == digits_value(digits.take(i - start)),
            0 <= acc <= 2147483648,
        decreases n - i,
    {
        let c = cs[i];
        assert(digits[i - start] == c);
        if !('0' <= c && c <= '9') {
            proof {
                assert(!all_digits(digits));
                assert(parse_i32_spec(s@) is None);
            }
            return None;
        }
        proof {
            lemma_digits_step(digits, i - start);
        }
        let next: i64 = acc * 10 + ((c as u32) - ('0' as u32)) as i64;
        if next > 2147483648 {
            proof {
                if all_digits(digits) {
                    lemma_digits_value_prefix(digits, i - start + 1);
                }
                assert(parse_i32_spec(s@) is None);
            }
            return None;
        }
        acc = next;
        i += 1;
    }
    assert(digits.take(n - start) =~= digits);
    if neg {
        Some((0 - acc) as i32)
    } else if acc <= 2147483647 {
        Some(acc as i32)
    } else {
        None
    }
}

// ---------------------------------------------------------------------------
// Joining.
// ---------------------------------------------------------------------------

/// The pieces of `parts` with `sep` between each two.
pub open spec fn join_with(parts: Seq<Seq<char>>, sep: Seq<char>) -> Seq<char>
    decreases parts.len(),
{
    if parts.len() == 0 {
        Seq::empty()
    } else if parts.len() == 1 {
        parts[0]
    } else {
        join_with(parts.drop_last(), sep) + sep + parts.last()
    }
}

/// Joining the first `n` pieces gives a prefix of joining the first `m`,
/// for `n <= m`; with more pieces, a separator follows that prefix.
proof fn lemma_join_with_prefix(parts: Seq<Seq<char>>, sep: Seq<char>, n: int, m: int)
    requires
        1 <= n <= m <= parts.len(),
    ensures
        join_with(parts.take(n), sep).len() <= join_with(parts.take(m), sep).len(),
        join_with(parts.take(m), sep).subrange(0, join_with(parts.take(n), sep).len() as int)
            == join_with(parts.take(n), sep),
        n < m ==> join_with(parts.take(m), sep).len() >= join_with(parts.take(n), sep).len() + sep.len()
            && join_with(parts.take(m), sep).subrange(
            join_with(parts.take(n), sep).len() as int,
            (join_with(parts.take(n), sep).len() + sep.len()) as int,
        ) == sep,
    decreases m - n,
{
    let pn = join_with(parts.take(n), sep);
    let pm = join_with(parts.take(m), sep);
    if n == m {
        assert(pm.subrange(0, pn.len() as int) =~= pn);
    } else {
        lemma_join_with_prefix(parts, sep, n, m - 1);
        let pm1 = join_with(parts.take(m - 1), sep);
        assert(parts.take(m).drop_last() =~= parts.take(m - 1));
        assert(parts.take(m).last() == parts[m - 1]);
        assert(pm == pm1 + sep + parts[m - 1]);
        assert(pm.subrange(0, pn.len() as int) =~= pm1.subrange(0, pn.len() as int));
        if n < m - 1 {
            assert(pm.subrange(pn.len() as int, (pn.len() + sep.len()) as int) =~= pm1.subrange(
                pn.len() as int,
                (pn.len() + sep.len()) as int,
            ));
        } else {
            assert(pm1 == pn);
            assert(pm.subrange(pn.len() as int, (pn.len() + sep.len()) as int) =~= sep);
        }
    }
}

/// A piece of `parts` other than the first and the last stands in the
/// joined text between two separators.
pub proof fn lemma_join_with_inner(parts: Seq<Seq<char>>, sep: Seq<char>, i: int)
    requires
        1 <= i,
        i + 1 < parts.len(),
    ensures
        has_substring(join_with(parts, sep), sep + parts[i] + sep),
{
    let pi = join_with(parts.take(i), sep);
    let p1 = join_with(parts.take(i + 1), sep);
    let full = join_with(parts, sep);
    assert(parts.take(parts.len() as int) =~= parts);
    lemma_join_with_prefix(parts, sep, i, i + 1);
    lemma_join_with_prefix(parts, sep, i + 1, parts.len() as int);
    lemma_join_with_prefix(parts, sep, i, parts.len() as int);
    assert(parts.take(i + 1).drop_last() =~= parts.take(i));
    assert(parts.take(i + 1).last() == parts[i]);
    assert(p1 == pi + sep + parts[i]);
    let needle = sep + parts[i] + sep;
    let at = pi.len() as int;
    assert(full.subrange(at, at + needle.len()) =~= needle) by {
        assert forall|k: int| 0 <= k < needle.len() implies full.subrange(at, at + needle.len())[k] == needle[k] by {
            if k < sep.len() + parts[i].len() {
                assert(full[at + k] == full.subrange(0, p1.len() as int)[at + k]);
                assert(p1[at + k] == needle[k]);
            } else {
                let q = k - sep.len() - parts[i].len();
                assert(full[p1.len() + q] == full.subrange(p1.len() as int, (p1.len() + sep.len()) as int)[q]);
            }
        }
    }
}

/// The characters of each string of `v`.
pub open spec fn string_seq(v: Seq<String>) -> Seq<Seq<char>> {
    v.map_values(|w: String| w@)
}

/// The strings of `parts` joined with `sep` between each two.
pub fn join_strings(parts: &Vec<String>, sep: &str) -> (r: String)
    ensures
        r@ == join_with(string_seq(parts@), sep@),
{
    let ghost ps = string_seq(parts@);
    let mut out = String::new();
    let mut i: usize = 0;
    while i < parts.len()
        invariant
            i <= parts@.len(),
            ps == string_seq(parts@),
            out@ == join_with(ps.take(i as int), sep@),
        decreases parts.len() - i,
    {
        let ghost before = out@;
        assert(ps.take(i as int + 1).drop_last() =~= ps.take(i as int));
        assert(ps.take(i as int + 1).last() == parts@[i as int]@);
        if i > 0 {
            push_str(&mut out, sep);
        }
        push_str(&mut out, parts[i].as_str());
        if i == 0 {
            assert(ps.take(1)[0] == parts@[0]@);
            assert(out@ =~= join_with(ps.take(1), sep@));
        } else {
            assert(out@ =~= before + sep@ + parts@[i as int]@);
        }
        i += 1;
    }
    assert(ps.take(parts@.len() as int) =~= ps);
    out
}


// ---------------------------------------------------------------------------
// Lines.
// ---------------------------------------------------------------------------

/// The lines of `s` after a partial line `cur`: each `\n` ends a line and
/// drops one `\r` before it; a last line without `\n` is kept as it is,
/// and an empty one after the final `\n` is no line.
pub open spec fn lines_after(s: Seq<char>, cur: Seq<char>) -> Seq<Seq<char>>
    decreases s.len(),
{
    if s.len() == 0 {
        if cur.len() == 0 {
            Seq::empty()
        } else {
            seq![cur]
        }
    } else if s[0] == '\n' {
        let line = if cur.len() > 0 && cur.last() == '\r' {
            cur.drop_last()
        } else {
            cur
        };
        seq![line] + lines_after(s.drop_first(), Seq::empty())
    } else {
        lines_after(s.drop_first(), cur.push(s[0]))
    }
}

/// The lines of `s`, as `str::lines` gives them.
pub open spec fn lines_of(s: Seq<char>) -> Seq<Seq<char>> {
    lines_after(s, Seq::empty())
}

/// The lines of `contents`.
pub fn split_lines(contents: &str) -> (r: Vec<String>)
    ensures
        string_seq(r@) == lines_of(contents@),
{
    let cs = chars_of(contents);
    let n = cs.len();
    let mut out: Vec<String> = Vec::new();
    let mut cur: Vec<char> = Vec::new();
    let mut i: usize = 0;
    while i < n
        invariant
            n == cs@.len(),
            cs@ == contents@,
            i <= n,
            lines_of(cs@) == string_seq(out@) + lines_after(cs@.skip(i as int), cur@),
        decreases n - i,
    {
        let ghost rest = cs@.skip(i as int);
        assert(rest[0] == cs@[i as int]);
        assert(rest.drop_first() =~= cs@.skip(i as int + 1));
        let ghost before = string_seq(out@);
        if cs[i] == '\n' {
            let mut m = cur.len();
            if m > 0 && cur[m - 1] == '\r' {
                m = m - 1;
            }
            let line = slice_chars(&cur, 0, m);
            let ghost expected = if cur@.len() > 0 && cur@.last() == '\r' {
                cur@.drop_last()
            } else {
                cur@
            };
            assert(line@ =~= expected);
            out.push(string_of(&line));
            assert(string_seq(out@) =~= before.push(expected));
            assert(before + (seq![expected] + lines_after(cs@.skip(i as int + 1), Seq::empty()))
                =~= string_seq(out@) + lines_after(cs@.skip(i as int + 1), Seq::empty()));
            cur = Vec::new();
            assert(cur@ =~= Seq::<char>::empty());
        } else {
            cur.push(cs[i]);
        }
        i += 1;
    }
    proof {
        assert(cs@.skip(n as int).len() == 0);
        if cur@.len() > 0 {
            assert(lines_after(cs@.skip(n as int), cur@) =~= seq![cur@]);
        } else {
            assert(lines_after(cs@.skip(n as int), cur@) =~= Seq::<Seq<char>>::empty());
        }
    }
    if cur.len() > 0 {
        let ghost before = string_seq(out@);
        out.push(string_of(&cur));
        assert(string_seq(out@) =~= before + seq![cur@]);
    } else {
        assert(string_seq(out@) + Seq::<Seq<char>>::empty() =~= string_seq(out@));
    }
    out
}

} // verus!
