//! Small verified text utilities: character classes, trimming, splitting and
//! unsigned-number parsing over `&str`, each tied to a spec-level definition
//! so that the record parsers can state their contracts over views.

use vstd::prelude::*;

verus! {

// ---------------------------------------------------------------------------
// Character classes
// ---------------------------------------------------------------------------

/// ASCII whitespace, as the scheduler's tabular output may pad fields with it.
pub open spec fn is_space_char(c: char) -> bool {
    c == ' ' || c == '\t' || c == '\n' || c == '\r' || c == '\x0c'
}

pub open spec fn is_digit_char(c: char) -> bool {
    '0' <= c && c <= '9'
}

pub open spec fn digit_value(c: char) -> int {
    c as int - '0' as int
}

/// Executable test for `is_space_char`.
pub fn char_is_space(c: char) -> (r: bool)
    ensures
        r == is_space_char(c),
{
    c == ' ' || c == '\t' || c == '\n' || c == '\r' || c == '\x0c'
}

/// Executable test for `is_digit_char`.
pub fn char_is_digit(c: char) -> (r: bool)
    ensures
        r == is_digit_char(c),
{
    '0' <= c && c <= '9'
}

// ---------------------------------------------------------------------------
// String equality
// ---------------------------------------------------------------------------

/// Character-wise equality of two string slices.
pub fn str_eq(a: &str, b: &str) -> (r: bool)
    ensures
        r == (a@ == b@),
{
    let n = a.unicode_len();
    if n != b.unicode_len() {
        assert(a@.len() != b@.len());
        return false;
    }
    let mut i: usize = 0;
    while i < n
        invariant
            n == a@.len(),
            n == b@.len(),
            i <= n,
            forall|j: int| 0 <= j < i ==> a@[j] == b@[j],
        decreases n - i,
    {
        if a.get_char(i) != b.get_char(i) {
            return false;
        }
        i += 1;
    }
    proof {
        assert(a@ =~= b@);
    }
    true
}

// ---------------------------------------------------------------------------
// Trimming
// ---------------------------------------------------------------------------

pub open spec fn spec_trim_front(s: Seq<char>) -> Seq<char>
    decreases s.len(),
{
    if s.len() > 0 && is_space_char(s[0]) {
        spec_trim_front(s.drop_first())
    } else {
        s
    }
}

pub open spec fn spec_trim_back(s: Seq<char>) -> Seq<char>
    decreases s.len(),
{
    if s.len() > 0 && is_space_char(s.last()) {
        spec_trim_back(s.drop_last())
    } else {
        s
    }
}

/// The string with ASCII whitespace removed from both ends.
pub open spec fn spec_trim(s: Seq<char>) -> Seq<char> {
    spec_trim_back(spec_trim_front(s))
}

proof fn lemma_trim_front_skip(s: Seq<char>, i: int)
    requires
        0 <= i <= s.len(),
        forall|j: int| 0 <= j < i ==> is_space_char(s[j]),
        i == s.len() || !is_space_char(s[i]),
    ensures
        spec_trim_front(s) == s.skip(i),
    decreases i,
{
    if i == 0 {
        assert(s.skip(0) =~= s);
    } else {
        lemma_trim_front_skip(s.drop_first(), i - 1);
        assert(s.drop_first().skip(i - 1) =~= s.skip(i));
    }
}

proof fn lemma_trim_back_take(s: Seq<char>, i: int)
    requires
        0 <= i <= s.len(),
        forall|j: int| i <= j < s.len() ==> is_space_char(s[j]),
        i == 0 || !is_space_char(s[i - 1]),
    ensures
        spec_trim_back(s) == s.take(i),
    decreases s.len() - i,
{
    if i == s.len() {
        assert(s.take(i) =~= s);
    } else {
        assert(s.drop_last() =~= s.take(s.len() - 1));
        lemma_trim_back_take(s.take(s.len() - 1), i);
        assert(s.take(s.len() - 1).take(i) =~= s.take(i));
    }
}

proof fn lemma_trim_front_no_leading(s: Seq<char>)
    ensures
        spec_trim_front(s).len() > 0 ==> !is_space_char(spec_trim_front(s)[0]),
    decreases s.len(),
{
    if s.len() > 0 && is_space_char(s[0]) {
        lemma_trim_front_no_leading(s.drop_first());
    }
}

proof fn lemma_trim_back_no_trailing(s: Seq<char>)
    ensures
        spec_trim_back(s).len() > 0 ==> !is_space_char(spec_trim_back(s).last()),
    decreases s.len(),
{
    if s.len() > 0 && is_space_char(s.last()) {
        lemma_trim_back_no_trailing(s.drop_last());
    }
}

proof fn lemma_trim_back_keeps_first(s: Seq<char>)
    ensures
        spec_trim_back(s).len() > 0 ==> spec_trim_back(s)[0] == s[0],
    decreases s.len(),
{
    if s.len() > 0 && is_space_char(s.last()) {
        lemma_trim_back_keeps_first(s.drop_last());
    }
}

/// Trimming is idempotent.
pub proof fn lemma_trim_idempotent(s: Seq<char>)
    ensures
        spec_trim(spec_trim(s)) == spec_trim(s),
{
    let t = spec_trim(s);
    if t.len() == 0 {
        assert(spec_trim_front(t) == t);
        assert(spec_trim_back(t) == t);
    } else {
        lemma_trim_front_no_leading(s);
        lemma_trim_back_keeps_first(spec_trim_front(s));
        lemma_trim_back_no_trailing(spec_trim_front(s));
        assert(!is_space_char(t[0]));
        assert(spec_trim_front(t) == t);
        assert(!is_space_char(t.last()));
        assert(spec_trim_back(t) == t);
    }
}

/// Returns the slice with leading and trailing ASCII whitespace removed.
pub fn trim_str<'a>(s: &'a str) -> (r: &'a str)
    ensures
        r@ == spec_trim(s@),
{
    let n = s.unicode_len();
    let mut a: usize = 0;
    while a < n && char_is_space(s.get_char(a))
        invariant
            n == s@.len(),
            a <= n,
            forall|j: int| 0 <= j < a ==> is_space_char(s@[j]),
        decreases n - a,
    {
        a += 1;
    }
    let mut b: usize = n;
    while b > a && char_is_space(s.get_char(b - 1))
        invariant
            n == s@.len(),
            a <= b <= n,
            forall|j: int| b <= j < n ==> is_space_char(s@[j]),
        decreases b,
    {
        b -= 1;
    }
    proof {
        lemma_trim_front_skip(s@, a as int);
        if b == a {
            lemma_trim_back_take(s@.skip(a as int), 0);
        } else {
            lemma_trim_back_take(s@.skip(a as int), b - a);
        }
        assert(s@.skip(a as int).take(b - a) =~= s@.subrange(a as int, b as int));
    }
    s.substring_char(a, b)
}

// ---------------------------------------------------------------------------
// Splitting on a separator character
// ---------------------------------------------------------------------------

/// Index of the first occurrence of `sep` in `s`, or `s.len()` when absent.
pub open spec fn first_index_of(s: Seq<char>, sep: char) -> int
    decreases s.len(),
{
    if s.len() == 0 {
        0
    } else if s[0] == sep {
        0
    } else {
        1 + first_index_of(s.drop_first(), sep)
    }
}

pub proof fn lemma_first_index_is(s: Seq<char>, sep: char, k: int)
    requires
        0 <= k <= s.len(),
        forall|j: int| 0 <= j < k ==> s[j] != sep,
        k == s.len() || s[k] == sep,
    ensures
        first_index_of(s, sep) == k,
    decreases k,
{
    if k > 0 {
        lemma_first_index_is(s.drop_first(), sep, k - 1);
    }
}

/// Finds the first occurrence of `sep`, returning the string length when it
/// is absent.
pub fn find_char(s: &str, sep: char) -> (r: usize)
    ensures
        r == first_index_of(s@, sep),
        r <= s@.len(),
        r < s@.len() ==> s@[r as int] == sep,
        forall|j: int| 0 <= j < r ==> s@[j] != sep,
{
    let n = s.unicode_len();
    let mut i: usize = 0;
    while i < n && s.get_char(i) != sep
        invariant
            n == s@.len(),
            i <= n,
            forall|j: int| 0 <= j < i ==> s@[j] != sep,
        decreases n - i,
    {
        i += 1;
    }
    proof {
        lemma_first_index_is(s@, sep, i as int);
    }
    i
}

/// The fields of `s` delimited by `sep`; the result always has at least one
/// element, and the empty string splits to a single empty field.
pub open spec fn spec_split(s: Seq<char>, sep: char) -> Seq<Seq<char>>
    decreases s.len(),
{
    let i = first_index_of(s, sep);
    if i == s.len() {
        seq![s]
    } else if 0 <= i < s.len() {
        seq![s.take(i)] + spec_split(s.skip(i + 1), sep)
    } else {
        seq![s]  // unreachable: the index is always in range
    }
}

/// The views of the returned strings are exactly `spec_split(s@, sep)`.
pub fn split_str(s: &str, sep: char) -> (r: Vec<String>)
    ensures
        r@.map_values(|t: String| t@) == spec_split(s@, sep),
        r@.len() >= 1,
{
    let n = s.unicode_len();
    let mut parts: Vec<String> = Vec::new();
    let mut start: usize = 0;
    let mut i: usize = 0;
    proof {
        assert(s@.skip(0) =~= s@);
        assert(parts@.map_values(|t: String| t@) + spec_split(s@, sep) =~= spec_split(s@, sep));
    }
    while i < n
        invariant
            n == s@.len(),
            start <= i <= n,
            forall|j: int| start <= j < i ==> s@[j] != sep,
            spec_split(s@, sep) == parts@.map_values(|t: String| t@) + spec_split(
                s@.skip(start as int),
                sep,
            ),
        decreases n - i,
    {
        if s.get_char(i) == sep {
            let piece = s.substring_char(start, i);
            let ghost old_parts = parts@;
            parts.push(String::from_str(piece));
            proof {
                let tail = s@.skip(start as int);
                lemma_first_index_is(tail, sep, i - start);
                assert(tail.take(i - start) =~= s@.subrange(start as int, i as int));
                assert(tail.skip(i - start + 1) =~= s@.skip(i + 1));
                assert(parts@.map_values(|t: String| t@) =~= old_parts.map_values(
                    |t: String| t@,
                ).push(piece@));
                assert(old_parts.map_values(|t: String| t@) + (seq![s@.subrange(
                    start as int,
                    i as int,
                )] + spec_split(s@.skip(i + 1), sep)) =~= parts@.map_values(|t: String| t@)
                    + spec_split(s@.skip(i + 1), sep));
            }
            start = i + 1;
        }
        i += 1;
    }
    let last = s.substring_char(start, n);
    let ghost old_parts = parts@;
    parts.push(String::from_str(last));
    proof {
        let tail = s@.skip(start as int);
        lemma_first_index_is(tail, sep, n - start);
        assert(tail =~= s@.subrange(start as int, n as int));
        assert(parts@.map_values(|t: String| t@) =~= old_parts.map_values(|t: String| t@).push(
            last@,
        ));
        assert(old_parts.map_values(|t: String| t@) + seq![tail] =~= parts@.map_values(
            |t: String| t@,
        ));
    }
    parts
}

// ---------------------------------------------------------------------------
// Lexicographic order
// ---------------------------------------------------------------------------

/// Lexicographic order on character sequences; a proper prefix comes first.
pub open spec fn lex_le(a: Seq<char>, b: Seq<char>) -> bool
    decreases a.len(),
{
    if a.len() == 0 {
        true
    } else if b.len() == 0 {
        false
    } else if a[0] != b[0] {
        (a[0] as int) < (b[0] as int)
    } else {
        lex_le(a.drop_first(), b.drop_first())
    }
}

pub proof fn lemma_lex_le_total(a: Seq<char>, b: Seq<char>)
    ensures
        lex_le(a, b) || lex_le(b, a),
    decreases a.len(),
{
    if a.len() > 0 && b.len() > 0 && a[0] == b[0] {
        lemma_lex_le_total(a.drop_first(), b.drop_first());
    }
}

pub proof fn lemma_lex_le_antisymmetric(a: Seq<char>, b: Seq<char>)
    requires
        lex_le(a, b),
        lex_le(b, a),
    ensures
        a == b,
    decreases a.len(),
{
    if a.len() == 0 {
        assert(a =~= b);
    } else {
        lemma_lex_le_antisymmetric(a.drop_first(), b.drop_first());
        assert(a =~= seq![a[0]] + a.drop_first());
        assert(b =~= seq![b[0]] + b.drop_first());
    }
}

pub proof fn lemma_lex_le_transitive(a: Seq<char>, b: Seq<char>, c: Seq<char>)
    requires
        lex_le(a, b),
        lex_le(b, c),
    ensures
        lex_le(a, c),
    decreases a.len(),
{
    if a.len() > 0 && b.len() > 0 && c.len() > 0 && a[0] == b[0] && b[0] == c[0] {
        lemma_lex_le_transitive(a.drop_first(), b.drop_first(), c.drop_first());
    }
}

/// Lexicographic comparison of two strings.
pub fn str_le(a: &str, b: &str) -> (r: bool)
    ensures
        r == lex_le(a@, b@),
{
    let la = a.unicode_len();
    let lb = b.unicode_len();
    let mut i: usize = 0;
    proof {
        assert(a@.skip(0) =~= a@);
        assert(b@.skip(0) =~= b@);
    }
    loop
        invariant
            la == a@.len(),
            lb == b@.len(),
            i <= la,
            i <= lb,
            forall|j: int| 0 <= j < i ==> a@[j] == b@[j],
            lex_le(a@, b@) == lex_le(a@.skip(i as int), b@.skip(i as int)),
        decreases la - i,
    {
        if i == la {
            assert(a@.skip(i as int).len() == 0);
            return true;
        }
        if i == lb {
            assert(b@.skip(i as int).len() == 0);
            assert(a@.skip(i as int).len() > 0);
            return false;
        }
        let ca = a.get_char(i);
        let cb = b.get_char(i);
        proof {
            assert(a@.skip(i as int)[0] == ca);
            assert(b@.skip(i as int)[0] == cb);
        }
        if ca != cb {
            return ca < cb;
        }
        proof {
            assert(a@.skip(i as int).drop_first() =~= a@.skip(i + 1));
            assert(b@.skip(i as int).drop_first() =~= b@.skip(i + 1));
        }
        i += 1;
    }
}

// ---------------------------------------------------------------------------
// Record lines
// ---------------------------------------------------------------------------

/// The lines that carry records: everything that is not blank.
pub open spec fn data_lines(ls: Seq<Seq<char>>) -> Seq<Seq<char>>
    decreases ls.len(),
{
    if ls.len() == 0 {
        Seq::empty()
    } else {
        (if spec_trim(ls[0]).len() > 0 {
            seq![ls[0]]
        } else {
            Seq::empty()
        }) + data_lines(ls.drop_first())
    }
}

/// Splits tabular text into its record lines: the first line is the column
/// header and blank lines carry nothing.
pub fn record_lines(text: &str) -> (r: Vec<String>)
    ensures
        r@.map_values(|t: String| t@) == data_lines(spec_split(text@, '\n').skip(1)),
{
    let lines = split_str(text, '\n');
    let ghost all = spec_split(text@, '\n').skip(1);
    let mut r: Vec<String> = Vec::new();
    let mut i: usize = 1;
    proof {
        assert(all.skip(0) =~= all);
        assert(r@.map_values(|t: String| t@) + data_lines(all) =~= data_lines(all));
    }
    while i < lines.len()
        invariant
            1 <= i <= lines@.len(),
            all == spec_split(text@, '\n').skip(1),
            all == lines@.map_values(|t: String| t@).skip(1),
            data_lines(all) == r@.map_values(|t: String| t@) + data_lines(all.skip(i - 1)),
        decreases lines@.len() - i,
    {
        proof {
            assert(all.skip(i - 1)[0] == all[i - 1]);
            assert(all[i - 1] == lines@.map_values(|t: String| t@)[i as int]);
            assert(lines@.map_values(|t: String| t@)[i as int] == lines@[i as int]@);
            assert(all.skip(i - 1).drop_first() =~= all.skip(i as int));
        }
        let ghost old_r = r@;
        if trim_str(lines[i].as_str()).unicode_len() > 0 {
            r.push(lines[i].clone());
            proof {
                assert(r@.map_values(|t: String| t@) =~= old_r.map_values(|t: String| t@).push(
                    all[i - 1],
                ));
                assert(old_r.map_values(|t: String| t@) + (seq![all[i - 1]] + data_lines(
                    all.skip(i as int),
                )) =~= r@.map_values(|t: String| t@) + data_lines(all.skip(i as int)));
            }
        }
        i += 1;
    }
    proof {
        if lines@.len() >= 1 {
            assert(all.skip(lines@.len() - 1) =~= Seq::<Seq<char>>::empty());
        }
        assert(r@.map_values(|t: String| t@) + Seq::<Seq<char>>::empty() =~= r@.map_values(
            |t: String| t@,
        ));
    }
    r
}

// ---------------------------------------------------------------------------
// Unsigned decimal numbers
// ---------------------------------------------------------------------------

/// Value of a digit string, most significant digit first.
pub open spec fn digits_value(s: Seq<char>) -> int
    decreases s.len(),
{
    if s.len() == 0 {
        0
    } else {
        digits_value(s.drop_last()) * 10 + digit_value(s.last())
    }
}

pub open spec fn all_digits(s: Seq<char>) -> bool {
    forall|j: int| 0 <= j < s.len() ==> is_digit_char(#[trigger] s[j])
}

/// The digit part of an unsigned number: one optional leading `+` stripped,
/// mirroring what the standard integer parser accepts.
pub open spec fn uint_body(s: Seq<char>) -> Seq<char> {
    if s.len() > 0 && s[0] == '+' {
        s.drop_first()
    } else {
        s
    }
}

/// Whether `s` is a well-formed unsigned decimal number.
pub open spec fn uint_ok(s: Seq<char>) -> bool {
    uint_body(s).len() > 0 && all_digits(uint_body(s))
}

/// The numeric value of `s` (meaningful when `uint_ok(s)`).
pub open spec fn uint_value(s: Seq<char>) -> int {
    digits_value(uint_body(s))
}

pub proof fn lemma_digits_value_nonneg(s: Seq<char>)
    requires
        all_digits(s),
    ensures
        digits_value(s) >= 0,
    decreases s.len(),
{
    if s.len() > 0 {
        assert(all_digits(s.drop_last()));
        lemma_digits_value_nonneg(s.drop_last());
    }
}

/// Extending a digit string never decreases its value.
pub proof fn lemma_digits_value_prefix_le(s: Seq<char>, i: int)
    requires
        all_digits(s),
        0 <= i <= s.len(),
    ensures
        digits_value(s.take(i)) <= digits_value(s),
    decreases s.len() - i,
{
    assert(all_digits(s.take(i)));
    lemma_digits_value_nonneg(s.take(i));
    if i < s.len() {
        lemma_digits_value_prefix_le(s, i + 1);
        assert(s.take(i + 1).drop_last() =~= s.take(i));
        assert(digits_value(s.take(i + 1)) == digits_value(s.take(i)) * 10 + digit_value(
            s.take(i + 1).last(),
        ));
        lemma_digits_value_nonneg(s.take(i + 1).drop_last());
    } else {
        assert(s.take(i) =~= s);
    }
}

/// Parses an unsigned decimal number, accepting one optional leading `+`,
/// exactly when the value fits in `u64`.
pub fn parse_u64(s: &str) -> (r: Option<u64>)
    ensures
        r is Some <==> uint_ok(s@) && uint_value(s@) <= u64::MAX,
        r is Some ==> r->Some_0 == uint_value(s@),
{
    let n = s.unicode_len();
    let offset: usize = if n > 0 && s.get_char(0) == '+' {
        1
    } else {
        0
    };
    let ghost body = uint_body(s@);
    proof {
        assert(body =~= s@.skip(offset as int));
    }
    if offset == n {
        return None;
    }
    let mut acc: u64 = 0;
    let mut j: usize = offset;
    while j < n
        invariant
            n == s@.len(),
            offset <= j <= n,
            body == uint_body(s@),
            body == s@.skip(offset as int),
            body.len() == n - offset,
            all_digits(body.take(j - offset)),
            acc == digits_value(body.take(j - offset)),
        decreases n - j,
    {
        let c = s.get_char(j);
        if !char_is_digit(c) {
            proof {
                assert(body[j - offset] == c);
                assert(!all_digits(body)) by {
                    assert(!is_digit_char(body[j - offset]));
                }
            }
            return None;
        }
        let d: u64 = (c as u32 - 48) as u64;
        assert(d == digit_value(c)) by {
            assert('0' <= c && c <= '9');
        }
        proof {
            assert(body.take(j - offset + 1).drop_last() =~= body.take(j - offset));
            assert(body.take(j - offset + 1).last() == c);
            assert(all_digits(body.take(j - offset + 1)));
        }
        if acc > (u64::MAX - d) / 10 {
            proof {
                assert(acc * 10 + d > u64::MAX) by {
                    assert(acc >= (u64::MAX - d) / 10 + 1);
                    assert(((u64::MAX - d) / 10 + 1) * 10 + d > u64::MAX) by (nonlinear_arith)
                        requires
                            0 <= d <= 9,
                    ;
                    assert(acc * 10 >= ((u64::MAX - d) / 10 + 1) * 10) by (nonlinear_arith)
                        requires
                            acc >= (u64::MAX - d) / 10 + 1,
                    ;
                }
                if all_digits(body) {
                    lemma_digits_value_prefix_le(body, j - offset + 1);
                    assert(digits_value(body.take(j - offset + 1)) == acc * 10 + d);
                }
            }
            return None;
        }
        assert(acc * 10 + d <= u64::MAX) by {
            assert(acc <= (u64::MAX - d) / 10);
            assert(acc * 10 <= ((u64::MAX - d) / 10) * 10) by (nonlinear_arith)
                requires
                    acc <= (u64::MAX - d) / 10,
            ;
            assert(((u64::MAX - d) / 10) * 10 + d <= u64::MAX) by (nonlinear_arith)
                requires
                    0 <= d <= 9,
            ;
        }
        acc = acc * 10 + d;
        j += 1;
    }
    proof {
        assert(body.take(n - offset) =~= body);
    }
    Some(acc)
}

/// Parses a bare digit string (no sign), exactly when the value fits `u64`.
pub fn parse_digits(s: &str) -> (r: Option<u64>)
    ensures
        r is Some <==> s@.len() > 0 && all_digits(s@) && digits_value(s@) <= u64::MAX,
        r is Some ==> r->Some_0 == digits_value(s@),
{
    let n = s.unicode_len();
    if n == 0 {
        return None;
    }
    if s.get_char(0) == '+' {
        assert(!is_digit_char(s@[0]));
        return None;
    }
    proof {
        assert(uint_body(s@) == s@);
    }
    parse_u64(s)
}

/// `10^d` for non-negative `d`.
pub open spec fn pow10(d: int) -> int
    decreases d,
{
    if d <= 0 {
        1
    } else {
        10 * pow10(d - 1)
    }
}

/// A digit string's value is below `10^length`.
pub proof fn lemma_digits_value_bound(s: Seq<char>)
    requires
        all_digits(s),
    ensures
        0 <= digits_value(s) < pow10(s.len() as int),
    decreases s.len(),
{
    if s.len() > 0 {
        assert(all_digits(s.drop_last()));
        lemma_digits_value_bound(s.drop_last());
        assert(digits_value(s) == digits_value(s.drop_last()) * 10 + digit_value(s.last()));
        assert(digits_value(s.drop_last()) * 10 <= (pow10(s.len() - 1) - 1) * 10)
            by (nonlinear_arith)
            requires
                digits_value(s.drop_last()) <= pow10(s.len() - 1) - 1,
        ;
    }
}

/// `10^d` as a machine integer.
pub fn pow10_u64(d: usize) -> (r: u64)
    requires
        d <= 19,
    ensures
        r == pow10(d as int),
{
    let mut r: u64 = 1;
    let mut k: usize = 0;
    while k < d
        invariant
            k <= d <= 19,
            r == pow10(k as int),
        decreases d - k,
    {
        proof {
            lemma_pow10_increases(k as int, 18);
            assert(pow10(18) == 1_000_000_000_000_000_000) by {
                reveal_with_fuel(pow10, 20);
            }
        }
        r = r * 10;
        k += 1;
    }
    r
}

/// `10^d` stays below `u64` range for `d` up to 19.
pub proof fn lemma_pow10_bounds(d: int)
    requires
        0 <= d <= 19,
    ensures
        0 < pow10(d) <= 0x8AC7_2304_89E8_0000,
    decreases d,
{
    if d > 0 {
        lemma_pow10_bounds(d - 1);
        assert(pow10(19) == 10_000_000_000_000_000_000) by {
            reveal_with_fuel(pow10, 21);
        }
        assert(pow10(d) <= pow10(19)) by {
            lemma_pow10_increases(d, 19);
        }
    }
}

pub proof fn lemma_pow10_increases(a: int, b: int)
    requires
        0 <= a <= b,
    ensures
        pow10(a) <= pow10(b),
        pow10(a) > 0,
    decreases b,
{
    if a < b {
        lemma_pow10_increases(a, b - 1);
        assert(pow10(b) == 10 * pow10(b - 1));
    } else {
        lemma_pow10_pos(a);
    }
}

pub proof fn lemma_pow10_pos(d: int)
    ensures
        pow10(d) > 0,
    decreases d,
{
    if d > 0 {
        lemma_pow10_pos(d - 1);
    }
}

// ---------------------------------------------------------------------------
// Fixed-point decimal numbers
// ---------------------------------------------------------------------------
//
// The scheduler reports CPU load ("1.50") and job memory ("62.5G") with a
// fractional part.  These are parsed exactly: the digits around one optional
// decimal point form an integer numerator over a power of ten, and callers
// scale that rational by a conversion factor, truncating the result.

/// The number with one optional leading `+` stripped.
pub open spec fn dec_body(s: Seq<char>) -> Seq<char> {
    if s.len() > 0 && s[0] == '+' {
        s.drop_first()
    } else {
        s
    }
}

/// Digits before the decimal point (possibly empty).
pub open spec fn dec_int(s: Seq<char>) -> Seq<char> {
    let parts = spec_split(dec_body(s), '.');
    parts[0]
}

/// Digits after the decimal point (empty when there is none).
pub open spec fn dec_frac(s: Seq<char>) -> Seq<char> {
    let parts = spec_split(dec_body(s), '.');
    if parts.len() >= 2 {
        parts[1]
    } else {
        Seq::empty()
    }
}

/// Shape of an unsigned decimal number: digits with at most one point and
/// at least one digit somewhere.
pub open spec fn dec_ok(s: Seq<char>) -> bool {
    let parts = spec_split(dec_body(s), '.');
    &&& (parts.len() == 1 || parts.len() == 2)
    &&& all_digits(dec_int(s))
    &&& all_digits(dec_frac(s))
    &&& dec_int(s).len() + dec_frac(s).len() > 0
}

/// The numerator of the number over `10^(fractional digits)`.
pub open spec fn dec_num(s: Seq<char>) -> int {
    digits_value(dec_int(s)) * pow10(dec_frac(s).len() as int) + digits_value(dec_frac(s))
}

/// The number multiplied by `mult_num / mult_den`, truncated to an integer.
pub open spec fn dec_scaled(s: Seq<char>, mult_num: int, mult_den: int) -> int {
    dec_num(s) * mult_num / (mult_den * pow10(dec_frac(s).len() as int))
}

/// Whether the decimal is within what the parser accepts: a well-formed
/// shape, at most nine fractional digits, an integer part that fits `u64`,
/// and a scaled value within the resource-amount bound.
pub open spec fn dec_in_range(s: Seq<char>, mult_num: int, mult_den: int) -> bool {
    &&& dec_ok(s)
    &&& dec_frac(s).len() <= 9
    &&& digits_value(dec_int(s)) <= u64::MAX
    &&& dec_scaled(s, mult_num, mult_den) <= crate::MAX_AMOUNT
}

/// Parses an unsigned decimal and scales it by `mult_num / mult_den`,
/// truncating; succeeds exactly on the numbers `dec_in_range` admits.
pub fn parse_decimal_scaled(s: &str, mult_num: u64, mult_den: u64) -> (r: Option<u64>)
    requires
        1 <= mult_num <= 1048576,
        1 <= mult_den <= 1024,
    ensures
        r is Some <==> dec_in_range(s@, mult_num as int, mult_den as int),
        r is Some ==> r->Some_0 == dec_scaled(s@, mult_num as int, mult_den as int),
{
    let n = s.unicode_len();
    let body: &str = if n > 0 && s.get_char(0) == '+' {
        let b = s.substring_char(1, n);
        proof {
            assert(b@ =~= s@.drop_first());
        }
        b
    } else {
        s
    };
    assert(body@ == dec_body(s@));
    let parts = split_str(body, '.');
    let ghost sparts = spec_split(dec_body(s@), '.');
    proof {
        assert(parts@.map_values(|t: String| t@) == sparts);
        assert(parts@.len() == sparts.len());
        assert(parts@.map_values(|t: String| t@)[0] == parts@[0]@);
    }
    if parts.len() > 2 {
        return None;
    }
    let int_str = parts[0].as_str();
    assert(int_str@ == dec_int(s@));
    let frac_str: &str = if parts.len() == 2 {
        proof {
            assert(parts@.map_values(|t: String| t@)[1] == parts@[1]@);
        }
        parts[1].as_str()
    } else {
        ""
    };
    proof {
        reveal_strlit("");
        assert(""@ =~= Seq::<char>::empty());
        assert(frac_str@ == dec_frac(s@));
    }
    let d = frac_str.unicode_len();
    if int_str.unicode_len() == 0 && d == 0 {
        return None;
    }
    let int_val: u64 = if int_str.unicode_len() == 0 {
        assert(digits_value(dec_int(s@)) == 0);
        0
    } else {
        match parse_digits(int_str) {
            Some(v) => v,
            None => {
                return None;
            },
        }
    };
    if d > 9 {
        return None;
    }
    let frac_val: u64 = if d == 0 {
        assert(digits_value(dec_frac(s@)) == 0);
        0
    } else {
        match parse_digits(frac_str) {
            Some(v) => v,
            None => {
                proof {
                    if all_digits(frac_str@) {
                        lemma_digits_value_bound(frac_str@);
                        lemma_pow10_increases(d as int, 19);
                        lemma_pow10_bounds(19);
                        assert(pow10(9) == 1_000_000_000) by {
                            reveal_with_fuel(pow10, 11);
                        }
                        lemma_pow10_increases(d as int, 9);
                    }
                }
                return None;
            },
        }
    };
    proof {
        lemma_pow10_increases(d as int, 9);
        lemma_pow10_pos(d as int);
        assert(pow10(9) == 1_000_000_000) by {
            reveal_with_fuel(pow10, 11);
        }
    }
    let p: u64 = pow10_u64(d);
    proof {
        lemma_decimal_products_fit(
            int_val as int,
            p as int,
            frac_val as int,
            mult_num as int,
            mult_den as int,
        );
    }
    let num: u128 = (int_val as u128) * (p as u128) + (frac_val as u128);
    let scaled: u128 = num * (mult_num as u128) / ((mult_den as u128) * (p as u128));
    proof {
        vstd::arithmetic::div_mod::lemma_div_pos_is_pos(
            (num * mult_num as u128) as int,
            (mult_den as u128 * p as u128) as int,
        );
        assert(scaled == dec_scaled(s@, mult_num as int, mult_den as int));
    }
    if scaled > crate::MAX_AMOUNT as u128 {
        return None;
    }
    Some(scaled as u64)
}

/// The intermediate products of decimal scaling stay inside `u128`.
proof fn lemma_decimal_products_fit(
    int_val: int,
    p: int,
    frac_val: int,
    mult_num: int,
    mult_den: int,
)
    requires
        0 <= int_val <= u64::MAX,
        0 < p <= 1_000_000_000,
        0 <= frac_val <= u64::MAX,
        0 <= mult_num <= 1048576,
        1 <= mult_den <= 1024,
    ensures
        int_val * p + frac_val <= u128::MAX,
        (int_val * p + frac_val) * mult_num <= u128::MAX,
        int_val * p >= 0,
        (int_val * p + frac_val) * mult_num >= 0,
        0 < mult_den * p <= u128::MAX,
{
    assert(mult_den * p <= 1024 * 1_000_000_000int) by (nonlinear_arith)
        requires
            1 <= mult_den <= 1024,
            0 < p <= 1_000_000_000,
    ;
    assert(mult_den * p > 0) by (nonlinear_arith)
        requires
            1 <= mult_den,
            0 < p,
    ;
    assert(int_val * p <= u64::MAX * 1_000_000_000int) by (nonlinear_arith)
        requires
            0 <= int_val <= u64::MAX,
            0 < p <= 1_000_000_000,
    ;
    assert(int_val * p >= 0) by (nonlinear_arith)
        requires
            0 <= int_val,
            0 < p,
    ;
    let num = int_val * p + frac_val;
    assert(num * mult_num <= (u64::MAX * 1_000_000_000int + u64::MAX) * 1048576)
        by (nonlinear_arith)
        requires
            0 <= num <= u64::MAX * 1_000_000_000int + u64::MAX,
            0 <= mult_num <= 1048576,
    ;
    assert(num * mult_num >= 0) by (nonlinear_arith)
        requires
            0 <= num,
            0 <= mult_num,
    ;
    assert((u64::MAX * 1_000_000_000int + u64::MAX) * 1048576 <= u128::MAX) by (nonlinear_arith);
}

/// A well-formed unsigned number within the crate's resource-amount bound.
pub open spec fn amount_ok(s: Seq<char>) -> bool {
    uint_ok(s) && uint_value(s) <= crate::MAX_AMOUNT
}

/// Parses a resource amount: an unsigned decimal no larger than
/// [`crate::MAX_AMOUNT`], so that all utilization arithmetic stays exact.
pub fn parse_amount(s: &str) -> (r: Option<u64>)
    ensures
        r is Some <==> amount_ok(s@),
        r is Some ==> r->Some_0 == uint_value(s@) && r->Some_0 <= crate::MAX_AMOUNT,
{
    match parse_u64(s) {
        Some(v) => {
            if v <= crate::MAX_AMOUNT {
                Some(v)
            } else {
                None
            }
        },
        None => None,
    }
}

// ---------------------------------------------------------------------------
// Formatting unsigned decimal numbers
// ---------------------------------------------------------------------------

/// The character for one decimal digit.
pub open spec fn digit_char(d: int) -> char {
    (48 + d) as char
}

/// The decimal digits of `n`, most significant first, no leading zeros.
pub open spec fn spec_digits(n: int) -> Seq<char>
    decreases n,
{
    if n < 10 {
        seq![digit_char(n)]
    } else {
        spec_digits(n / 10) + seq![digit_char(n % 10)]
    }
}

/// The decimal digits of `n`, zero-padded on the left to two places.
pub open spec fn spec_pad2(n: int) -> Seq<char> {
    if 0 <= n < 10 {
        seq!['0'] + spec_digits(n)
    } else {
        spec_digits(n)
    }
}

/// Rendered numbers consist of decimal digits.
pub proof fn lemma_digits_chars(n: int)
    requires
        n >= 0,
    ensures
        all_digits(spec_digits(n)),
        spec_digits(n).len() >= 1,
    decreases n,
{
    if n < 10 {
        assert(is_digit_char(digit_char(n)));
        assert(forall|j: int|
            0 <= j < spec_digits(n).len() ==> is_digit_char(#[trigger] spec_digits(n)[j]));
    } else {
        lemma_digits_chars(n / 10);
        assert(is_digit_char(digit_char(n % 10)));
        assert forall|j: int|
            0 <= j < spec_digits(n).len() implies is_digit_char(
            #[trigger] spec_digits(n)[j],
        ) by {
            if j < spec_digits(n / 10).len() {
                assert(spec_digits(n)[j] == spec_digits(n / 10)[j]);
            } else {
                assert(spec_digits(n)[j] == digit_char(n % 10));
            }
        }
    }
}

/// A digit character reads back as its digit.
pub proof fn lemma_digit_char_value(d: int)
    requires
        0 <= d < 10,
    ensures
        digit_value(digit_char(d)) == d,
        is_digit_char(digit_char(d)),
{
    if d == 0 {
        assert(digit_char(0) == '0');
    } else if d == 1 {
        assert(digit_char(1) == '1');
    } else if d == 2 {
        assert(digit_char(2) == '2');
    } else if d == 3 {
        assert(digit_char(3) == '3');
    } else if d == 4 {
        assert(digit_char(4) == '4');
    } else if d == 5 {
        assert(digit_char(5) == '5');
    } else if d == 6 {
        assert(digit_char(6) == '6');
    } else if d == 7 {
        assert(digit_char(7) == '7');
    } else if d == 8 {
        assert(digit_char(8) == '8');
    } else {
        assert(digit_char(9) == '9');
    }
}

/// Rendering and reading a number are inverse.
pub proof fn lemma_digits_roundtrip(n: int)
    requires
        n >= 0,
    ensures
        digits_value(spec_digits(n)) == n,
    decreases n,
{
    if n < 10 {
        lemma_digit_char_value(n);
        assert(spec_digits(n).drop_last() =~= Seq::<char>::empty());
        assert(digits_value(spec_digits(n)) == digits_value(Seq::<char>::empty()) * 10
            + digit_value(digit_char(n)));
    } else {
        lemma_digits_roundtrip(n / 10);
        lemma_digit_char_value(n % 10);
        assert(spec_digits(n).drop_last() =~= spec_digits(n / 10));
        assert(spec_digits(n).last() == digit_char(n % 10));
        assert(digits_value(spec_digits(n)) == digits_value(spec_digits(n / 10)) * 10
            + digit_value(digit_char(n % 10)));
        assert(n / 10 * 10 + n % 10 == n);
    }
}

/// A leading zero does not change a digit string's value.
pub proof fn lemma_digits_value_leading_zero(s: Seq<char>)
    ensures
        digits_value(seq!['0'] + s) == digits_value(s),
    decreases s.len(),
{
    if s.len() == 0 {
        assert((seq!['0'] + s) =~= seq!['0']);
        assert(seq!['0'].drop_last() =~= Seq::<char>::empty());
        assert(digits_value(seq!['0']) == digits_value(Seq::<char>::empty()) * 10
            + digit_value('0'));
    } else {
        lemma_digits_value_leading_zero(s.drop_last());
        assert((seq!['0'] + s).drop_last() =~= seq!['0'] + s.drop_last());
        assert((seq!['0'] + s).last() == s.last());
    }
}

/// A zero-padded number is a plain unsigned number with the same value.
pub proof fn lemma_pad2_value(n: int)
    requires
        0 <= n,
    ensures
        all_digits(spec_pad2(n)),
        spec_pad2(n).len() >= 1,
        uint_ok(spec_pad2(n)),
        uint_value(spec_pad2(n)) == n,
{
    lemma_digits_chars(n);
    lemma_digits_roundtrip(n);
    if n < 10 {
        assert forall|j: int|
            0 <= j < spec_pad2(n).len() implies is_digit_char(#[trigger] spec_pad2(n)[j]) by {
            if j == 0 {
                assert(spec_pad2(n)[0] == '0');
            } else {
                assert(spec_pad2(n)[j] == spec_digits(n)[j - 1]);
            }
        }
        lemma_digits_value_leading_zero(spec_digits(n));
        assert(spec_pad2(n)[0] != '+');
        assert(uint_body(spec_pad2(n)) == spec_pad2(n));
    } else {
        assert(spec_pad2(n) == spec_digits(n));
        assert(spec_pad2(n)[0] != '+');
        assert(uint_body(spec_pad2(n)) == spec_pad2(n));
    }
}

/// No character of `s` is `c`.
pub open spec fn no_char(s: Seq<char>, c: char) -> bool {
    forall|j: int| 0 <= j < s.len() ==> s[j] != c
}

/// Splitting a string that starts with a separator-free prefix yields that
/// prefix followed by the split of the rest.
pub proof fn lemma_split_prepend(a: Seq<char>, b: Seq<char>, sep: char)
    requires
        no_char(a, sep),
    ensures
        spec_split(a + seq![sep] + b, sep) == seq![a] + spec_split(b, sep),
{
    let s = a + seq![sep] + b;
    assert forall|j: int| 0 <= j < a.len() implies s[j] != sep by {
        assert(s[j] == a[j]);
    }
    assert(s[a.len() as int] == sep);
    lemma_first_index_is(s, sep, a.len() as int);
    assert(s.take(a.len() as int) =~= a);
    assert(s.skip(a.len() as int + 1) =~= b);
}

/// A separator-free string splits to itself alone.
pub proof fn lemma_split_whole(s: Seq<char>, sep: char)
    requires
        no_char(s, sep),
    ensures
        spec_split(s, sep) == seq![s],
{
    lemma_first_index_is(s, sep, s.len() as int);
}

/// The one-character string for a decimal digit.
pub fn digit_str(d: u64) -> (r: &'static str)
    requires
        d < 10,
    ensures
        r@ == seq![digit_char(d as int)],
{
    proof {
        reveal_strlit("0");
        reveal_strlit("1");
        reveal_strlit("2");
        reveal_strlit("3");
        reveal_strlit("4");
        reveal_strlit("5");
        reveal_strlit("6");
        reveal_strlit("7");
        reveal_strlit("8");
        reveal_strlit("9");
    }
    let r = if d == 0 {
        "0"
    } else if d == 1 {
        "1"
    } else if d == 2 {
        "2"
    } else if d == 3 {
        "3"
    } else if d == 4 {
        "4"
    } else if d == 5 {
        "5"
    } else if d == 6 {
        "6"
    } else if d == 7 {
        "7"
    } else if d == 8 {
        "8"
    } else {
        "9"
    };
    proof {
        assert(r@ =~= seq![digit_char(d as int)]);
    }
    r
}

/// Renders `n` in decimal.
pub fn u64_to_string(n: u64) -> (r: String)
    ensures
        r@ == spec_digits(n as int),
    decreases n,
{
    if n < 10 {
        String::from_str(digit_str(n))
    } else {
        let mut s = u64_to_string(n / 10);
        s.append(digit_str(n % 10));
        s
    }
}

/// Renders `n` in decimal, padded to at least two places.
pub fn pad2_string(n: u64) -> (r: String)
    ensures
        r@ == spec_pad2(n as int),
{
    if n < 10 {
        proof {
            reveal_strlit("0");
        }
        let mut s = String::from_str("0");
        s.append(digit_str(n));
        proof {
            assert(s@ =~= seq!['0'] + spec_digits(n as int));
        }
        s
    } else {
        u64_to_string(n)
    }
}

} // verus!
