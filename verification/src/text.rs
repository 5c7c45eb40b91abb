//! Character-level text utilities: whitespace classification, trimming,
//! whitespace collapsing, substring search, and decimal digits.

use vstd::prelude::*;

verus! {

/// Unicode `White_Space` characters, as `char::is_whitespace` classifies them.
pub open spec fn is_ws(c: char) -> bool {
    let u = c as u32;
    ||| u == 0x20
    ||| (0x09 <= u && u <= 0x0D)
    ||| u == 0x85
    ||| u == 0xA0
    ||| u == 0x1680
    ||| (0x2000 <= u && u <= 0x200A)
    ||| u == 0x2028
    ||| u == 0x2029
    ||| u == 0x202F
    ||| u == 0x205F
    ||| u == 0x3000
}

pub fn is_ws_char(c: char) -> (r: bool)
    ensures
        r == is_ws(c),
{
    let u = c as u32;
    u == 0x20 || (0x09 <= u && u <= 0x0D) || u == 0x85 || u == 0xA0 || u == 0x1680 || (0x2000 <= u
        && u <= 0x200A) || u == 0x2028 || u == 0x2029 || u == 0x202F || u == 0x205F || u == 0x3000
}

/// Index of the first character at or after `i` that is not whitespace
/// (`s.len()` if there is none).
pub open spec fn idx_first_non_ws(s: Seq<char>, i: int) -> int
    decreases s.len() - i,
{
    if i < 0 || i >= s.len() {
        s.len() as int
    } else if is_ws(s[i]) {
        idx_first_non_ws(s, i + 1)
    } else {
        i
    }
}

/// One past the last character before `i` that is not whitespace
/// (`0` if there is none).
pub open spec fn idx_after_last_non_ws(s: Seq<char>, i: int) -> int
    decreases i,
{
    if i <= 0 || i > s.len() {
        0
    } else if is_ws(s[i - 1]) {
        idx_after_last_non_ws(s, i - 1)
    } else {
        i
    }
}

/// What `str::trim` returns.
pub open spec fn trim_spec(s: Seq<char>) -> Seq<char> {
    let a = idx_first_non_ws(s, 0);
    let b = idx_after_last_non_ws(s, s.len() as int);
    if a <= b {
        s.subrange(a, b)
    } else {
        Seq::empty()
    }
}

/// What `str::trim_end` returns.
pub open spec fn trim_end_spec(s: Seq<char>) -> Seq<char> {
    s.subrange(0, idx_after_last_non_ws(s, s.len() as int))
}

proof fn lemma_idx_first_non_ws_bounds(s: Seq<char>, i: int)
    requires
        0 <= i <= s.len(),
    ensures
        i <= idx_first_non_ws(s, i) <= s.len(),
        forall|j: int| i <= j < idx_first_non_ws(s, i) ==> is_ws(s[j]),
        idx_first_non_ws(s, i) < s.len() ==> !is_ws(s[idx_first_non_ws(s, i)]),
    decreases s.len() - i,
{
    if i < s.len() && is_ws(s[i]) {
        lemma_idx_first_non_ws_bounds(s, i + 1);
    }
}

proof fn lemma_idx_after_last_non_ws_bounds(s: Seq<char>, i: int)
    requires
        0 <= i <= s.len(),
    ensures
        0 <= idx_after_last_non_ws(s, i) <= i,
        forall|j: int| idx_after_last_non_ws(s, i) <= j < i ==> is_ws(s[j]),
        idx_after_last_non_ws(s, i) > 0 ==> !is_ws(s[idx_after_last_non_ws(s, i) - 1]),
    decreases i,
{
    if i > 0 && is_ws(s[i - 1]) {
        lemma_idx_after_last_non_ws_bounds(s, i - 1);
    }
}

/// Bounds and characterization of the trim indices.
pub proof fn lemma_idx_bounds_pub(s: Seq<char>)
    ensures
        0 <= idx_first_non_ws(s, 0) <= s.len(),
        0 <= idx_after_last_non_ws(s, s.len() as int) <= s.len(),
        forall|j: int| 0 <= j < idx_first_non_ws(s, 0) ==> is_ws(s[j]),
        idx_first_non_ws(s, 0) < s.len() ==> !is_ws(s[idx_first_non_ws(s, 0)]),
        idx_after_last_non_ws(s, s.len() as int) > 0 ==> !is_ws(
            s[idx_after_last_non_ws(s, s.len() as int) - 1],
        ),
        forall|j: int| idx_after_last_non_ws(s, s.len() as int) <= j < s.len() ==> is_ws(s[j]),
{
    lemma_idx_first_non_ws_bounds(s, 0);
    lemma_idx_after_last_non_ws_bounds(s, s.len() as int);
}

/// A string whose ends are not whitespace trims to itself.
pub proof fn lemma_trim_of_clean(s: Seq<char>)
    requires
        s.len() > 0,
        !is_ws(s[0]),
        !is_ws(s[s.len() - 1]),
    ensures
        trim_spec(s) == s,
{
    assert(idx_first_non_ws(s, 0) == 0);
    assert(idx_after_last_non_ws(s, s.len() as int) == s.len());
    assert(trim_spec(s) =~= s);
}

/// Trimming yields the empty sequence exactly when every character is whitespace.
pub proof fn lemma_trim_empty(s: Seq<char>)
    ensures
        trim_spec(s).len() == 0 <==> (forall|j: int| 0 <= j < s.len() ==> is_ws(s[j])),
{
    lemma_idx_first_non_ws_bounds(s, 0);
    lemma_idx_after_last_non_ws_bounds(s, s.len() as int);
    let a = idx_first_non_ws(s, 0);
    let b = idx_after_last_non_ws(s, s.len() as int);
    if a < s.len() {
        assert(!is_ws(s[a]));
        if a <= b {
            if a == b {
                assert(is_ws(s[a]));
            }
            assert(trim_spec(s).len() == b - a);
        } else {
            assert(b <= a < s.len());
            assert(is_ws(s[a]));
        }
    }
}

/// Executable trim over a character vector, equal to `trim_spec`.
pub fn trim_chars(s: &Vec<char>) -> (r: Vec<char>)
    ensures
        r@ == trim_spec(s@),
{
    let n = s.len();
    let mut a: usize = 0;
    while a < n && is_ws_char(s[a])
        invariant
            0 <= a <= n == s@.len(),
            idx_first_non_ws(s@, 0) == idx_first_non_ws(s@, a as int),
        decreases n - a,
    {
        assert(idx_first_non_ws(s@, a as int) == idx_first_non_ws(s@, a + 1));
        a = a + 1;
    }
    assert(idx_first_non_ws(s@, 0) == a);
    let mut b: usize = n;
    while b > 0 && is_ws_char(s[b - 1])
        invariant
            0 <= b <= n == s@.len(),
            idx_after_last_non_ws(s@, n as int) == idx_after_last_non_ws(s@, b as int),
        decreases b,
    {
        assert(idx_after_last_non_ws(s@, b as int) == idx_after_last_non_ws(s@, b - 1));
        b = b - 1;
    }
    assert(idx_after_last_non_ws(s@, n as int) == b);
    let mut r: Vec<char> = Vec::new();
    if a <= b {
        let mut i: usize = a;
        while i < b
            invariant
                a <= i <= b <= s@.len(),
                r@ == s@.subrange(a as int, i as int),
            decreases b - i,
        {
            r.push(s[i]);
            assert(r@ =~= s@.subrange(a as int, i + 1));
            i = i + 1;
        }
    }
    assert(r@ =~= trim_spec(s@));
    r
}

/// Executable trim of only the trailing whitespace, equal to `trim_end_spec`.
pub fn trim_end_chars(s: &Vec<char>) -> (r: Vec<char>)
    ensures
        r@ == trim_end_spec(s@),
{
    let n = s.len();
    let mut b: usize = n;
    while b > 0 && is_ws_char(s[b - 1])
        invariant
            0 <= b <= n == s@.len(),
            idx_after_last_non_ws(s@, n as int) == idx_after_last_non_ws(s@, b as int),
        decreases b,
    {
        assert(idx_after_last_non_ws(s@, b as int) == idx_after_last_non_ws(s@, b - 1));
        b = b - 1;
    }
    assert(idx_after_last_non_ws(s@, n as int) == b);
    let mut r: Vec<char> = Vec::new();
    let mut i: usize = 0;
    while i < b
        invariant
            0 <= i <= b <= s@.len(),
            r@ == s@.subrange(0, i as int),
        decreases b - i,
    {
        r.push(s[i]);
        assert(r@ =~= s@.subrange(0, i + 1));
        i = i + 1;
    }
    assert(r@ =~= trim_end_spec(s@));
    r
}

/// The characters of a string slice, in order.
pub fn str_chars(s: &str) -> (r: Vec<char>)
    ensures
        r@ == s@,
{
    let n = s.unicode_len();
    let mut r: Vec<char> = Vec::new();
    let mut i: usize = 0;
    while i < n
        invariant
            0 <= i <= n == s@.len(),
            r@ == s@.subrange(0, i as int),
        decreases n - i,
    {
        r.push(s.get_char(i));
        assert(r@ =~= s@.subrange(0, i + 1));
        i = i + 1;
    }
    assert(r@ =~= s@);
    r
}

/// Relies on `String: FromIterator<char>`: collecting characters builds the
/// string of exactly those characters.
#[verifier::external_body]
pub(crate) fn chars_string(v: &Vec<char>) -> (r: String)
    ensures
        r@ == v@,
{
    v.iter().collect()
}

/// Append all characters of `s`.
pub fn push_chars(out: &mut Vec<char>, s: &Vec<char>)
    ensures
        final(out)@ == old(out)@ + s@,
{
    let n = s.len();
    let mut i: usize = 0;
    while i < n
        invariant
            0 <= i <= n == s@.len(),
            out@ == old(out)@ + s@.subrange(0, i as int),
        decreases n - i,
    {
        out.push(s[i]);
        assert(out@ =~= old(out)@ + s@.subrange(0, i + 1));
        i = i + 1;
    }
    assert(out@ =~= old(out)@ + s@);
}

/// Append all characters of a string slice.
pub fn push_str_chars(out: &mut Vec<char>, s: &str)
    ensures
        final(out)@ == old(out)@ + s@,
{
    let v = str_chars(s);
    push_chars(out, &v);
}

/// Element-wise equality of character vectors.
pub fn chars_eq(a: &Vec<char>, b: &Vec<char>) -> (r: bool)
    ensures
        r == (a@ == b@),
{
    if a.len() != b.len() {
        return false;
    }
    let n = a.len();
    let mut i: usize = 0;
    while i < n
        invariant
            0 <= i <= n,
            n == a@.len() == b@.len(),
            forall|j: int| 0 <= j < i ==> a@[j] == b@[j],
        decreases n - i,
    {
        if a[i] != b[i] {
            return false;
        }
        i = i + 1;
    }
    assert(a@ =~= b@);
    true
}

/// Character-wise equality of two string slices.
pub(crate) fn str_eq(a: &str, b: &str) -> (r: bool)
    ensures
        r == (a@ == b@),
{
    let av = str_chars(a);
    let bv = str_chars(b);
    chars_eq(&av, &bv)
}

/// Index of the first occurrence of `c` at or after `i` (`s.len()` if none).
pub open spec fn find_char_from(s: Seq<char>, c: char, i: int) -> int
    decreases s.len() - i,
{
    if i < 0 || i >= s.len() {
        s.len() as int
    } else if s[i] == c {
        i
    } else {
        find_char_from(s, c, i + 1)
    }
}

pub proof fn lemma_find_char_from(s: Seq<char>, c: char, i: int)
    requires
        0 <= i <= s.len(),
    ensures
        i <= find_char_from(s, c, i) <= s.len(),
        forall|j: int| i <= j < find_char_from(s, c, i) ==> s[j] != c,
        find_char_from(s, c, i) < s.len() ==> s[find_char_from(s, c, i)] == c,
    decreases s.len() - i,
{
    if i < s.len() && s[i] != c {
        lemma_find_char_from(s, c, i + 1);
    }
}

/// Executable first-occurrence search for a single character.
pub fn find_char(s: &Vec<char>, c: char, from: usize) -> (r: usize)
    requires
        from <= s@.len(),
    ensures
        r == find_char_from(s@, c, from as int),
{
    let n = s.len();
    let mut i: usize = from;
    while i < n && s[i] != c
        invariant
            from <= i <= n == s@.len(),
            find_char_from(s@, c, from as int) == find_char_from(s@, c, i as int),
        decreases n - i,
    {
        assert(find_char_from(s@, c, i as int) == find_char_from(s@, c, i + 1));
        i = i + 1;
    }
    i
}

/// Whether `pat` occurs in `s` starting at index `i`.
pub open spec fn matches_at(s: Seq<char>, pat: Seq<char>, i: int) -> bool {
    0 <= i && i + pat.len() <= s.len() && s.subrange(i, i + pat.len()) == pat
}

/// Index of the leftmost occurrence of `pat` at or after `i` (`s.len()` if none).
pub open spec fn find_sub_from(s: Seq<char>, pat: Seq<char>, i: int) -> int
    decreases s.len() - i,
{
    if i < 0 || pat.len() == 0 || i + pat.len() > s.len() {
        s.len() as int
    } else if matches_at(s, pat, i) {
        i
    } else {
        find_sub_from(s, pat, i + 1)
    }
}

pub proof fn lemma_find_sub_from(s: Seq<char>, pat: Seq<char>, i: int)
    requires
        0 <= i <= s.len(),
        pat.len() >= 1,
    ensures
        i <= find_sub_from(s, pat, i) <= s.len(),
        forall|j: int| i <= j < find_sub_from(s, pat, i) ==> !matches_at(s, pat, j),
        find_sub_from(s, pat, i) + pat.len() <= s.len() ==> matches_at(
            s,
            pat,
            find_sub_from(s, pat, i),
        ),
        find_sub_from(s, pat, i) + pat.len() > s.len() ==> find_sub_from(s, pat, i) == s.len(),
    decreases s.len() - i,
{
    if i + pat.len() <= s.len() && !matches_at(s, pat, i) {
        lemma_find_sub_from(s, pat, i + 1);
    }
}

/// `find_char_from` returns `at` when `at` holds the first occurrence.
pub proof fn lemma_find_char_hit(s: Seq<char>, c: char, from: int, at: int)
    requires
        0 <= from <= at < s.len(),
        s[at] == c,
        forall|j: int| from <= j < at ==> s[j] != c,
    ensures
        find_char_from(s, c, from) == at,
{
    lemma_find_char_from(s, c, from);
    let f = find_char_from(s, c, from);
    if f < at {
        assert(s[f] == c);
    }
    if f > at {
        assert(s[at] != c);
    }
}

/// `find_char_from` returns the length when the character does not occur.
pub proof fn lemma_find_char_miss(s: Seq<char>, c: char, from: int)
    requires
        0 <= from <= s.len(),
        forall|j: int| from <= j < s.len() ==> s[j] != c,
    ensures
        find_char_from(s, c, from) == s.len(),
{
    lemma_find_char_from(s, c, from);
    let f = find_char_from(s, c, from);
    if f < s.len() {
        assert(s[f] == c);
    }
}

fn matches_at_exec(s: &Vec<char>, pat: &Vec<char>, i: usize) -> (r: bool)
    requires
        i <= s@.len(),
    ensures
        r == matches_at(s@, pat@, i as int),
{
    let m = pat.len();
    if m > s.len() - i {
        return false;
    }
    assert(s@.len() <= usize::MAX);
    let mut k: usize = 0;
    while k < m
        invariant
            0 <= k <= m == pat@.len(),
            i + m <= s@.len() <= usize::MAX,
            s@.subrange(i as int, i + k) =~= pat@.subrange(0, k as int),
        decreases m - k,
    {
        if s[i + k] != pat[k] {
            assert(s@.subrange(i as int, i + m)[k as int] != pat@[k as int]);
            return false;
        }
        assert(s@.subrange(i as int, i + k + 1) =~= s@.subrange(i as int, i + k).push(
            s@[i + k],
        ));
        assert(pat@.subrange(0, k + 1) =~= pat@.subrange(0, k as int).push(pat@[k as int]));
        k = k + 1;
    }
    assert(s@.subrange(i as int, i + m) =~= pat@.subrange(0, m as int));
    assert(pat@.subrange(0, m as int) =~= pat@);
    true
}

/// Executable leftmost-occurrence search for a pattern.
pub fn find_sub(s: &Vec<char>, pat: &Vec<char>, from: usize) -> (r: usize)
    requires
        from <= s@.len(),
        pat@.len() >= 1,
    ensures
        r == find_sub_from(s@, pat@, from as int),
{
    let n = s.len();
    let mut i: usize = from;
    loop
        invariant
            from <= i <= n == s@.len(),
            pat@.len() >= 1,
            find_sub_from(s@, pat@, from as int) == find_sub_from(s@, pat@, i as int),
        decreases n - i,
    {
        if pat.len() > n - i {
            assert(find_sub_from(s@, pat@, i as int) == s@.len());
            return n;
        }
        if matches_at_exec(s, pat, i) {
            return i;
        }
        assert(find_sub_from(s@, pat@, i as int) == find_sub_from(s@, pat@, i + 1));
        i = i + 1;
    }
}

/// Copy of `s[from..to]`.
pub fn subrange_chars(s: &Vec<char>, from: usize, to: usize) -> (r: Vec<char>)
    requires
        from <= to <= s@.len(),
    ensures
        r@ == s@.subrange(from as int, to as int),
{
    let mut r: Vec<char> = Vec::new();
    let mut i: usize = from;
    while i < to
        invariant
            from <= i <= to <= s@.len(),
            r@ == s@.subrange(from as int, i as int),
        decreases to - i,
    {
        r.push(s[i]);
        assert(r@ =~= s@.subrange(from as int, i + 1));
        i = i + 1;
    }
    r
}

/// One step of whitespace collapsing: the output built from the first `n`
/// characters, and whether a separating space is still owed.
pub open spec fn collapse_prefix(s: Seq<char>, n: int) -> (Seq<char>, bool)
    decreases n,
{
    if n <= 0 || n > s.len() {
        (Seq::empty(), false)
    } else {
        let (acc, pend) = collapse_prefix(s, n - 1);
        let c = s[n - 1];
        if is_ws(c) {
            (acc, acc.len() > 0)
        } else if pend {
            (acc.push(' ').push(c), false)
        } else {
            (acc.push(c), false)
        }
    }
}

/// What `split_whitespace` joined with single spaces returns: interior
/// whitespace runs become one space, outer whitespace disappears.
pub open spec fn collapse_ws(s: Seq<char>) -> Seq<char> {
    collapse_prefix(s, s.len() as int).0
}

/// Executable whitespace collapsing, equal to `collapse_ws`.
pub fn collapse_ws_chars(s: &Vec<char>) -> (r: Vec<char>)
    ensures
        r@ == collapse_ws(s@),
{
    let n = s.len();
    let mut out: Vec<char> = Vec::new();
    let mut pending = false;
    let mut i: usize = 0;
    while i < n
        invariant
            0 <= i <= n == s@.len(),
            (out@, pending) == collapse_prefix(s@, i as int),
        decreases n - i,
    {
        let c = s[i];
        if is_ws_char(c) {
            pending = out.len() > 0;
        } else {
            if pending {
                out.push(' ');
            }
            out.push(c);
            pending = false;
        }
        i = i + 1;
    }
    out
}

/// Decimal digit character for a value in `0..10`.
pub open spec fn dec_digit(n: int) -> char {
    if n == 0 {
        '0'
    } else if n == 1 {
        '1'
    } else if n == 2 {
        '2'
    } else if n == 3 {
        '3'
    } else if n == 4 {
        '4'
    } else if n == 5 {
        '5'
    } else if n == 6 {
        '6'
    } else if n == 7 {
        '7'
    } else if n == 8 {
        '8'
    } else {
        '9'
    }
}

/// Decimal rendering of a natural number, without padding.
pub open spec fn dec_spec(n: nat) -> Seq<char>
    decreases n,
{
    if n < 10 {
        seq![dec_digit(n as int)]
    } else {
        dec_spec(n / 10).push(dec_digit((n % 10) as int))
    }
}

fn dec_digit_exec(n: u64) -> (r: char)
    requires
        n < 10,
    ensures
        r == dec_digit(n as int),
{
    if n == 0 {
        '0'
    } else if n == 1 {
        '1'
    } else if n == 2 {
        '2'
    } else if n == 3 {
        '3'
    } else if n == 4 {
        '4'
    } else if n == 5 {
        '5'
    } else if n == 6 {
        '6'
    } else if n == 7 {
        '7'
    } else if n == 8 {
        '8'
    } else {
        '9'
    }
}

/// Append the decimal rendering of `n`.
pub fn push_dec(n: u64, out: &mut Vec<char>)
    ensures
        final(out)@ == old(out)@ + dec_spec(n as nat),
    decreases n,
{
    if n < 10 {
        out.push(dec_digit_exec(n));
        assert(out@ =~= old(out)@ + dec_spec(n as nat));
    } else {
        push_dec(n / 10, out);
        out.push(dec_digit_exec(n % 10));
        assert(out@ =~= old(out)@ + dec_spec(n as nat));
    }
}

/// Whether `c` is an ASCII decimal digit.
pub open spec fn is_digit(c: char) -> bool {
    0x30 <= c as u32 && c as u32 <= 0x39
}

pub fn is_digit_exec(c: char) -> (r: bool)
    ensures
        r == is_digit(c),
{
    let u = c as u32;
    0x30 <= u && u <= 0x39
}

/// Numeric value of a digit character.
pub open spec fn digit_val(c: char) -> int {
    c as u32 - 0x30
}

pub open spec fn all_digits(s: Seq<char>) -> bool {
    forall|j: int| 0 <= j < s.len() ==> is_digit(s[j])
}

/// Value of a digit string.
pub open spec fn digits_val(s: Seq<char>) -> int
    decreases s.len(),
{
    if s.len() == 0 {
        0
    } else {
        digits_val(s.drop_last()) * 10 + digit_val(s.last())
    }
}

pub proof fn lemma_digits_val_nonneg(s: Seq<char>)
    requires
        all_digits(s),
    ensures
        digits_val(s) >= 0,
    decreases s.len(),
{
    if s.len() > 0 {
        assert(all_digits(s.drop_last()));
        lemma_digits_val_nonneg(s.drop_last());
        assert(digit_val(s.last()) >= 0);
    }
}

/// Extending a digit string on the right cannot lower its value.
pub proof fn lemma_digits_val_prefix_le(s: Seq<char>, i: int)
    requires
        all_digits(s),
        0 <= i <= s.len(),
    ensures
        digits_val(s.subrange(0, i)) <= digits_val(s),
    decreases s.len() - i,
{
    if i < s.len() {
        lemma_digits_val_prefix_le(s, i + 1);
        let p = s.subrange(0, i + 1);
        assert(p.drop_last() =~= s.subrange(0, i));
        assert(all_digits(s.subrange(0, i)));
        lemma_digits_val_nonneg(s.subrange(0, i));
        assert(digit_val(p.last()) >= 0);
        assert(digits_val(s.subrange(0, i)) <= digits_val(p));
    } else {
        assert(s.subrange(0, i) =~= s);
    }
}

pub proof fn lemma_digit_val_of_dec_digit(d: int)
    requires
        0 <= d < 10,
    ensures
        is_digit(dec_digit(d)),
        digit_val(dec_digit(d)) == d,
{
}

/// A digit character is the rendering of its own value.
pub proof fn lemma_dec_digit_of_digit(c: char)
    requires
        is_digit(c),
    ensures
        dec_digit(digit_val(c)) == c,
{
}

/// Decimal rendering produces a nonempty digit string with the same value.
pub proof fn lemma_dec_spec_digits(n: nat)
    ensures
        all_digits(dec_spec(n)),
        dec_spec(n).len() >= 1,
        digits_val(dec_spec(n)) == n,
    decreases n,
{
    if n < 10 {
        lemma_digit_val_of_dec_digit(n as int);
        let d = dec_spec(n);
        assert(d =~= seq![dec_digit(n as int)]);
        assert(d.drop_last() =~= Seq::<char>::empty());
        assert(digits_val(d) == digits_val(d.drop_last()) * 10 + digit_val(d.last()));
        assert(digits_val(d.drop_last()) == 0);
        assert(digit_val(d.last()) == n);
    } else {
        lemma_dec_spec_digits(n / 10);
        lemma_digit_val_of_dec_digit((n % 10) as int);
        let d = dec_spec(n);
        assert(d == dec_spec(n / 10).push(dec_digit((n % 10) as int)));
        assert(d.drop_last() =~= dec_spec(n / 10));
        assert(d.last() == dec_digit((n % 10) as int));
        assert(d.len() >= 1);
        assert(digits_val(d) == digits_val(d.drop_last()) * 10 + digit_val(d.last()));
        assert(digits_val(d) == (n / 10) * 10 + (n % 10));
        assert((n / 10) * 10 + (n % 10) == n) by (nonlinear_arith);
        assert(forall|j: int| 0 <= j < d.len() ==> is_digit(#[trigger] d[j])) by {
            assert(forall|j: int| 0 <= j < d.len() - 1 ==> d[j] == dec_spec(n / 10)[j]);
        }
    }
}

/// A leading zero does not change the value of a digit string.
pub proof fn lemma_digits_val_leading_zero(s: Seq<char>)
    ensures
        digits_val(seq!['0'] + s) == digits_val(s),
    decreases s.len(),
{
    let z = seq!['0'] + s;
    if s.len() == 0 {
        assert(z =~= seq!['0']);
        assert(z.drop_last() =~= Seq::<char>::empty());
        assert(digits_val(z) == digits_val(z.drop_last()) * 10 + digit_val(z.last()));
        assert(z.last() == '0');
        assert(digit_val('0') == 0);
    } else {
        lemma_digits_val_leading_zero(s.drop_last());
        assert(z.drop_last() =~= seq!['0'] + s.drop_last());
        assert(z.last() == s.last());
        assert(digits_val(z) == digits_val(z.drop_last()) * 10 + digit_val(z.last()));
        assert(digits_val(s) == digits_val(s.drop_last()) * 10 + digit_val(s.last()));
    }
}

/// Value of a one-character digit string.
pub proof fn lemma_digits_val_single(a: char)
    ensures
        digits_val(seq![a]) == digit_val(a),
{
    let z = seq![a];
    assert(z.len() == 1);
    assert(digits_val(z) == digits_val(z.drop_last()) * 10 + digit_val(z.last()));
    assert(z.drop_last() =~= Seq::<char>::empty());
    assert(digits_val(z.drop_last()) == 0);
    assert(z.last() == a);
}

/// Value of a two-character digit string.
pub proof fn lemma_digits_val_pair(a: char, b: char)
    ensures
        digits_val(seq![a, b]) == 10 * digit_val(a) + digit_val(b),
{
    lemma_digits_val_single(a);
    let z = seq![a, b];
    assert(digits_val(z) == digits_val(z.drop_last()) * 10 + digit_val(z.last()));
    assert(z.drop_last() =~= seq![a]);
    assert(z.last() == b);
}

/// Value of a three-character digit string.
pub proof fn lemma_digits_val_triple(a: char, b: char, c: char)
    ensures
        digits_val(seq![a, b, c]) == 100 * digit_val(a) + 10 * digit_val(b) + digit_val(c),
{
    lemma_digits_val_pair(a, b);
    let z = seq![a, b, c];
    assert(digits_val(z) == digits_val(z.drop_last()) * 10 + digit_val(z.last()));
    assert(z.drop_last() =~= seq![a, b]);
    assert(z.last() == c);
}

/// Parse `s[from..to]` as a digit string with value at most `cap`; `None`
/// when it is empty, holds a non-digit, or exceeds `cap`.
pub fn parse_digits_capped(s: &Vec<char>, from: usize, to: usize, cap: u64) -> (r: Option<u64>)
    requires
        from <= to <= s@.len(),
    ensures
        ({
            let part = s@.subrange(from as int, to as int);
            match r {
                Some(v) => part.len() > 0 && all_digits(part) && digits_val(part) == v && v <= cap,
                None => part.len() == 0 || !all_digits(part) || digits_val(part) > cap,
            }
        }),
{
    let ghost part = s@.subrange(from as int, to as int);
    if from == to {
        return None;
    }
    let mut val: u64 = 0;
    let mut i: usize = from;
    while i < to
        invariant
            from <= i <= to <= s@.len(),
            part == s@.subrange(from as int, to as int),
            all_digits(s@.subrange(from as int, i as int)),
            digits_val(s@.subrange(from as int, i as int)) == val,
            val <= cap,
        decreases to - i,
    {
        let c = s[i];
        let ghost pre = s@.subrange(from as int, i as int);
        let ghost cur = s@.subrange(from as int, i + 1);
        assert(cur.drop_last() =~= pre);
        if !is_digit_exec(c) {
            assert(!all_digits(part)) by {
                assert(part[i - from] == c);
            }
            return None;
        }
        assert(0x30 <= c as u32 && c as u32 <= 0x39);
        let u = c as u32;
        let d = (u - 0x30) as u64;
        assert(d == digit_val(c) && d <= 9);
        if d > cap || val > (cap - d) / 10 {
            assert(digits_val(cur) == val * 10 + d);
            assert(val * 10 + d > cap) by (nonlinear_arith)
                requires
                    d > cap || (cap >= d && val > (cap - d) / 10),
                    d <= 9,
                    val >= 0,
            ;
            assert(all_digits(cur));
            proof {
                if all_digits(part) {
                    lemma_digits_val_prefix_le(part, i + 1 - from);
                    assert(part.subrange(0, i + 1 - from) =~= cur);
                }
            }
            return None;
        }
        assert(val * 10 + d <= cap) by (nonlinear_arith)
            requires
                cap >= d,
                val <= (cap - d) / 10,
                d <= 9,
        ;
        val = val * 10 + d;
        i = i + 1;
    }
    assert(s@.subrange(from as int, to as int) =~= part);
    Some(val)
}

} // verus!
