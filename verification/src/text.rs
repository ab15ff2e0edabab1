//! Text as sequences of characters: the specifications that the rest of the
//! library speaks in, and the verified functions that compute them.

use vstd::prelude::*;
use vstd::seq_lib::lemma_flatten_concat;
use vstd::string::*;

verus! {

// ---------------------------------------------------------------- trusted

/// Appends one character: `std::string::String::push`.
pub assume_specification[ String::push ](s: &mut String, c: char)
    ensures
        final(s)@ == old(s)@.push(c),
;

/// Whether a character outside ASCII is alphabetic or numeric in Unicode, as
/// `char::is_alphanumeric` answers it.
pub uninterp spec fn unicode_alphanumeric(c: char) -> bool;

/// `char::is_alphanumeric`: on ASCII it is exactly the letters and the digits;
/// elsewhere it follows the Unicode tables, for which a name stands.
pub assume_specification[ char::is_alphanumeric ](c: char) -> (r: bool)
    ensures
        r == (if is_ascii_char(c) { is_ascii_alphanumeric(c) } else { unicode_alphanumeric(c) }),
;

/// What the character at index `i` of `s` becomes when `s` is lowercased, for a
/// character outside ASCII. The whole text is an argument because the lower
/// case of a capital sigma depends on what surrounds it.
pub uninterp spec fn unicode_lower(s: Seq<char>, i: int) -> Seq<char>;

/// `str::to_lowercase`: the lower cases of the characters, in order. An ASCII
/// character becomes its one ASCII lower case; for the others a name stands.
pub assume_specification[ str::to_lowercase ](s: &str) -> (r: String)
    ensures
        r@ == Seq::new(
            s@.len(),
            |i: int| if is_ascii_char(s@[i]) { seq![ascii_lower(s@[i])] } else { unicode_lower(s@, i) },
        ).flatten(),
;

// ---------------------------------------------------------- specifications

/// The 128 characters of ASCII.
pub open spec fn is_ascii_char(c: char) -> bool {
    (c as u32) < 128
}

/// The ASCII letters and digits.
pub open spec fn is_ascii_alphanumeric(c: char) -> bool {
    ('0' <= c <= '9') || ('A' <= c <= 'Z') || ('a' <= c <= 'z')
}

/// The lower case of an ASCII capital; any other character is left alone.
pub open spec fn ascii_lower(c: char) -> char {
    if 'A' <= c <= 'Z' {
        ((c as u32) + 32) as char
    } else {
        c
    }
}

/// The letters and digits of any script.
pub open spec fn is_letter_or_digit(c: char) -> bool {
    if is_ascii_char(c) {
        is_ascii_alphanumeric(c)
    } else {
        unicode_alphanumeric(c)
    }
}

/// The characters with the Unicode property `White_Space`.
pub open spec fn is_white(c: char) -> bool {
    let n = c as u32;
    ||| 0x09 <= n <= 0x0d
    ||| n == 0x20
    ||| n == 0x85
    ||| n == 0xa0
    ||| n == 0x1680
    ||| 0x2000 <= n <= 0x200a
    ||| n == 0x2028
    ||| n == 0x2029
    ||| n == 0x202f
    ||| n == 0x205f
    ||| n == 0x3000
}

/// `s` without the white space in front.
pub open spec fn strip_front(s: Seq<char>) -> Seq<char>
    decreases s.len(),
{
    if s.len() > 0 && is_white(s[0]) {
        strip_front(s.drop_first())
    } else {
        s
    }
}

/// `s` without the white space at its end.
pub open spec fn strip_back(s: Seq<char>) -> Seq<char>
    decreases s.len(),
{
    if s.len() > 0 && is_white(s.last()) {
        strip_back(s.drop_last())
    } else {
        s
    }
}

/// `s` without the white space around it.
pub open spec fn trimmed(s: Seq<char>) -> Seq<char> {
    strip_back(strip_front(s))
}

/// `s` without any `c` at its end.
pub open spec fn without_trailing(s: Seq<char>, c: char) -> Seq<char>
    decreases s.len(),
{
    if s.len() > 0 && s.last() == c {
        without_trailing(s.drop_last(), c)
    } else {
        s
    }
}

/// What stands before the first `c`; all of `s` where there is none.
pub open spec fn before_first(s: Seq<char>, c: char) -> Seq<char>
    decreases s.len(),
{
    if s.len() == 0 || s[0] == c {
        Seq::empty()
    } else {
        seq![s[0]] + before_first(s.drop_first(), c)
    }
}

/// What stands behind the last `c`; all of `s` where there is none.
pub open spec fn after_last(s: Seq<char>, c: char) -> Seq<char>
    decreases s.len(),
{
    if s.len() == 0 || s.last() == c {
        Seq::empty()
    } else {
        after_last(s.drop_last(), c).push(s.last())
    }
}

/// `part` occurs in `s` at index `i`.
pub open spec fn occurs_at(s: Seq<char>, part: Seq<char>, i: int) -> bool {
    &&& 0 <= i
    &&& i + part.len() <= s.len()
    &&& s.subrange(i, i + part.len()) == part
}

/// `part` occurs somewhere in `s`.
pub open spec fn has_part(s: Seq<char>, part: Seq<char>) -> bool {
    exists|i: int| occurs_at(s, part, i)
}

/// `s` starts with `part`.
pub open spec fn has_prefix(s: Seq<char>, part: Seq<char>) -> bool {
    occurs_at(s, part, 0)
}

/// `s` ends with `part`.
pub open spec fn has_suffix(s: Seq<char>, part: Seq<char>) -> bool {
    occurs_at(s, part, s.len() - part.len())
}

/// The two texts differ at most in the case of ASCII letters.
pub open spec fn same_ignoring_ascii_case(a: Seq<char>, b: Seq<char>) -> bool {
    &&& a.len() == b.len()
    &&& forall|i: int| 0 <= i < a.len() ==> ascii_lower(#[trigger] a[i]) == ascii_lower(b[i])
}

/// The lower case of the characters of `s`, one by one.
pub open spec fn lower_pieces(s: Seq<char>) -> Seq<Seq<char>> {
    Seq::new(
        s.len(),
        |i: int| if is_ascii_char(s[i]) { seq![ascii_lower(s[i])] } else { unicode_lower(s, i) },
    )
}

/// The lower case of `s`, as `str::to_lowercase` gives it.
pub open spec fn lowercase(s: Seq<char>) -> Seq<char> {
    lower_pieces(s).flatten()
}

/// The decimal digit for `n`, which is below ten.
pub open spec fn digit(n: nat) -> char {
    (('0' as u32) + n) as char
}

/// `n` in decimal, without leading zeros.
pub open spec fn decimal(n: nat) -> Seq<char>
    decreases n,
{
    if n < 10 {
        seq![digit(n)]
    } else {
        decimal(n / 10).push(digit(n % 10))
    }
}

// -------------------------------------------------------------- functions

/// The characters of a text, in order.
pub fn chars_of(s: &str) -> (v: Vec<char>)
    ensures
        v@ == s@,
{
    let mut v: Vec<char> = Vec::new();
    for c in it: s.chars()
        invariant
            it.seq() == s@,
            v@ == s@.take(it.index()),
    {
        v.push(c);
        assert(s@.take(it.index() + 1) =~= s@.take(it.index()).push(c));
    }
    assert(s@.take(s@.len() as int) =~= s@);
    v
}

/// Whether a character is white space.
pub fn is_whitespace(c: char) -> (r: bool)
    ensures
        r == is_white(c),
{
    let n: u32 = c as u32;
    (0x09 <= n && n <= 0x0d) || n == 0x20 || n == 0x85 || n == 0xa0 || n == 0x1680 || (0x2000 <= n
        && n <= 0x200a) || n == 0x2028 || n == 0x2029 || n == 0x202f || n == 0x205f || n == 0x3000
}

/// The text without the white space around it.
pub fn trim(s: &str) -> (r: String)
    ensures
        r@ == trimmed(s@),
{
    let v = chars_of(s);
    let mut i: usize = 0;
    assert(s@.skip(0) =~= s@);
    while i < v.len() && is_whitespace(v[i])
        invariant
            v@ == s@,
            i <= v.len(),
            strip_front(s@) == strip_front(s@.skip(i as int)),
        decreases v.len() - i,
    {
        assert(s@.skip(i as int).drop_first() =~= s@.skip(i + 1));
        i = i + 1;
    }
    let mut j: usize = v.len();
    assert(s@.skip(i as int) =~= s@.subrange(i as int, j as int));
    while i < j && is_whitespace(v[j - 1])
        invariant
            v@ == s@,
            i <= j <= v.len(),
            trimmed(s@) == strip_back(s@.subrange(i as int, j as int)),
        decreases j,
    {
        assert(s@.subrange(i as int, j as int).drop_last() =~= s@.subrange(i as int, j - 1));
        j = j - 1;
    }
    s.substring_char(i, j).to_string()
}

/// The text without any `c` at its end.
pub fn trim_end_matches(s: &str, c: char) -> (r: String)
    ensures
        r@ == without_trailing(s@, c),
{
    let v = chars_of(s);
    let mut j: usize = v.len();
    assert(s@.take(j as int) =~= s@);
    while 0 < j && v[j - 1] == c
        invariant
            v@ == s@,
            j <= v.len(),
            without_trailing(s@, c) == without_trailing(s@.take(j as int), c),
        decreases j,
    {
        assert(s@.take(j as int).drop_last() =~= s@.take(j - 1));
        j = j - 1;
    }
    assert(s@.take(j as int) =~= s@.subrange(0, j as int));
    s.substring_char(0, j).to_string()
}

/// What stands before the first `c`.
pub fn text_before(s: &str, c: char) -> (r: String)
    ensures
        r@ == before_first(s@, c),
{
    let v = chars_of(s);
    let mut j: usize = 0;
    assert(s@.skip(0) =~= s@);
    assert(s@.take(0) + before_first(s@, c) =~= before_first(s@, c));
    while j < v.len() && v[j] != c
        invariant
            v@ == s@,
            j <= v.len(),
            before_first(s@, c) == s@.take(j as int) + before_first(s@.skip(j as int), c),
        decreases v.len() - j,
    {
        let ghost rest = s@.skip(j as int);
        assert(rest.drop_first() =~= s@.skip(j + 1));
        assert(s@.take(j as int) + (seq![rest[0]] + before_first(rest.drop_first(), c))
            =~= s@.take(j + 1) + before_first(rest.drop_first(), c));
        j = j + 1;
    }
    assert(before_first(s@, c) =~= s@.subrange(0, j as int));
    s.substring_char(0, j).to_string()
}

/// What stands behind the last `c`.
pub fn text_after(s: &str, c: char) -> (r: String)
    ensures
        r@ == after_last(s@, c),
{
    let v = chars_of(s);
    let mut i: usize = v.len();
    assert(s@.take(i as int) =~= s@);
    assert(after_last(s@, c) + s@.skip(i as int) =~= after_last(s@, c));
    while 0 < i && v[i - 1] != c
        invariant
            v@ == s@,
            i <= v.len(),
            after_last(s@, c) == after_last(s@.take(i as int), c) + s@.skip(i as int),
        decreases i,
    {
        let ghost front = s@.take(i as int);
        assert(front.drop_last() =~= s@.take(i - 1));
        assert(after_last(front.drop_last(), c).push(front.last()) + s@.skip(i as int)
            =~= after_last(front.drop_last(), c) + s@.skip(i - 1));
        i = i - 1;
    }
    assert(after_last(s@, c) =~= s@.subrange(i as int, v@.len() as int));
    s.substring_char(i, v.len()).to_string()
}

/// Whether `part` stands in `v` at index `at`.
fn matches_at(v: &Vec<char>, part: &Vec<char>, at: usize) -> (r: bool)
    requires
        at + part.len() <= v.len(),
    ensures
        r == occurs_at(v@, part@, at as int),
{
    let mut k: usize = 0;
    while k < part.len()
        invariant
            at + part.len() <= v.len(),
            k <= part.len(),
            forall|x: int| 0 <= x < k ==> v@[at + x] == #[trigger] part@[x],
        decreases part.len() - k,
    {
        if v[at + k] != part[k] {
            assert(v@.subrange(at as int, at + part@.len())[k as int] != part@[k as int]);
            return false;
        }
        k = k + 1;
    }
    assert(v@.subrange(at as int, at + part@.len()) =~= part@);
    true
}

/// Whether `part` occurs in `s`.
pub fn contains(s: &str, part: &str) -> (r: bool)
    ensures
        r == has_part(s@, part@),
{
    let v = chars_of(s);
    let p = chars_of(part);
    if p.len() > v.len() {
        return false;
    }
    let last: usize = v.len() - p.len();
    let mut i: usize = 0;
    loop
        invariant
            v@ == s@,
            p@ == part@,
            last + p.len() == v.len(),
            i <= last,
            forall|x: int| 0 <= x < i ==> !occurs_at(s@, part@, x),
        decreases last - i,
    {
        if matches_at(&v, &p, i) {
            return true;
        }
        if i == last {
            return false;
        }
        i = i + 1;
    }
}

/// Whether `s` starts with `part`.
pub fn starts_with(s: &str, part: &str) -> (r: bool)
    ensures
        r == has_prefix(s@, part@),
{
    let v = chars_of(s);
    let p = chars_of(part);
    p.len() <= v.len() && matches_at(&v, &p, 0)
}

/// Whether `s` ends with `part`.
pub fn ends_with(s: &str, part: &str) -> (r: bool)
    ensures
        r == has_suffix(s@, part@),
{
    let v = chars_of(s);
    let p = chars_of(part);
    p.len() <= v.len() && matches_at(&v, &p, v.len() - p.len())
}

/// The lower case of an ASCII capital; any other character is left alone.
fn to_ascii_lower(c: char) -> (r: char)
    ensures
        r == ascii_lower(c),
{
    if 'A' <= c && c <= 'Z' {
        let n: u8 = c as u8;
        (n + 32) as char
    } else {
        c
    }
}

/// Whether two texts differ at most in the case of ASCII letters.
pub fn eq_ignore_ascii_case(a: &str, b: &str) -> (r: bool)
    ensures
        r == same_ignoring_ascii_case(a@, b@),
{
    let v = chars_of(a);
    let w = chars_of(b);
    if v.len() != w.len() {
        return false;
    }
    let mut i: usize = 0;
    while i < v.len()
        invariant
            v@ == a@,
            w@ == b@,
            v.len() == w.len(),
            i <= v.len(),
            forall|x: int| 0 <= x < i ==> ascii_lower(#[trigger] a@[x]) == ascii_lower(b@[x]),
        decreases v.len() - i,
    {
        if to_ascii_lower(v[i]) != to_ascii_lower(w[i]) {
            return false;
        }
        i = i + 1;
    }
    true
}

/// `n` in decimal.
pub fn decimal_text(n: u64) -> (r: String)
    ensures
        r@ == decimal(n as nat),
    decreases n,
{
    let low: u8 = (n % 10) as u8;
    let c: char = (48 + low) as char;
    if n < 10 {
        let mut r = String::new();
        r.push(c);
        assert(r@ =~= seq![digit(n as nat)]);
        r
    } else {
        let mut r = decimal_text(n / 10);
        r.push(c);
        r
    }
}

// --------------------------------------------------------------------- laws

/// A trimmed text neither starts nor ends with white space.
pub proof fn law_trimmed_has_no_white_ends(s: Seq<char>)
    ensures
        trimmed(s).len() > 0 ==> !is_white(trimmed(s)[0]) && !is_white(trimmed(s).last()),
{
    lemma_strip_front_starts(s);
    lemma_strip_back_ends(strip_front(s));
}

/// Trimming a trimmed text changes nothing.
pub proof fn law_trimming_twice(s: Seq<char>)
    ensures
        trimmed(trimmed(s)) == trimmed(s),
{
    law_trimmed_has_no_white_ends(s);
}

/// Trimming takes only white space away, and only from the ends.
pub proof fn law_trimming_takes_white_space(s: Seq<char>)
    ensures
        exists|i: int, j: int|
            0 <= i <= j <= s.len() && trimmed(s) == #[trigger] s.subrange(i, j) && (forall|k: int|
                0 <= k < i || j <= k < s.len() ==> is_white(#[trigger] s[k])),
{
    let i = lemma_strip_front_is_suffix(s);
    let front = strip_front(s);
    let n = lemma_strip_back_is_prefix(front);
    let j = i + n;
    assert(trimmed(s) =~= s.subrange(i, j));
    assert forall|k: int| 0 <= k < i || j <= k < s.len() implies is_white(#[trigger] s[k]) by {
        if k >= j {
            assert(front[k - i] == s[k]);
        }
    }
}

/// All of `s` is white space.
pub open spec fn is_blank(s: Seq<char>) -> bool {
    forall|i: int| 0 <= i < s.len() ==> is_white(#[trigger] s[i])
}

/// `t` is what is left of `s` when the white space around it, and nothing else, is
/// taken off.
pub open spec fn is_core(s: Seq<char>, t: Seq<char>) -> bool {
    &&& t.len() > 0 ==> !is_white(t[0]) && !is_white(t.last())
    &&& exists|front: Seq<char>, back: Seq<char>|
        is_blank(front) && is_blank(back) && s == #[trigger] (front + t + back)
}

/// Trimming leaves what stands between the white space around a text, whatever that
/// is.
pub proof fn law_trimming_leaves_the_core(front: Seq<char>, core: Seq<char>, back: Seq<char>)
    requires
        is_blank(front),
        is_blank(back),
        core.len() > 0 ==> !is_white(core[0]) && !is_white(core.last()),
    ensures
        trimmed(front + core + back) == core,
{
    let s = front + core + back;
    law_trimming_takes_white_space(s);
    law_trimmed_has_no_white_ends(s);
    let t = trimmed(s);
    let (i, j) = choose|i: int, j: int|
        0 <= i <= j <= s.len() && t == #[trigger] s.subrange(i, j) && (forall|k: int|
            0 <= k < i || j <= k < s.len() ==> is_white(#[trigger] s[k]));
    let a = front.len() as int;
    let b = a + core.len();
    assert forall|k: int| 0 <= k < a || b <= k < s.len() implies is_white(#[trigger] s[k]) by {
        if k < a {
            assert(s[k] == front[k]);
        } else {
            assert(s[k] == back[k - b]);
        }
    }
    if core.len() > 0 {
        assert(s[a] == core[0]);
        assert(s[b - 1] == core.last());
        assert(i <= a && b <= j);
        assert(t[0] == s[i]);
        assert(t.last() == s[j - 1]);
        assert(a <= i && j <= b);
        assert(s.subrange(a, b) =~= core);
    } else {
        if t.len() > 0 {
            assert(t[0] == s[i]);
        }
        assert(t =~= core);
    }
}

/// A trimmed text is the core of the text, and the only one that it has.
pub proof fn law_trimmed_is_the_core(s: Seq<char>, t: Seq<char>)
    ensures
        is_core(s, t) <==> trimmed(s) == t,
{
    if is_core(s, t) {
        let (front, back) = choose|front: Seq<char>, back: Seq<char>|
            is_blank(front) && is_blank(back) && s == #[trigger] (front + t + back);
        law_trimming_leaves_the_core(front, t, back);
    }
    if trimmed(s) == t {
        law_trimming_takes_white_space(s);
        law_trimmed_has_no_white_ends(s);
        let (i, j) = choose|i: int, j: int|
            0 <= i <= j <= s.len() && t == #[trigger] s.subrange(i, j) && (forall|k: int|
                0 <= k < i || j <= k < s.len() ==> is_white(#[trigger] s[k]));
        assert(s =~= s.take(i) + t + s.skip(j));
        assert(is_blank(s.take(i)) && is_blank(s.skip(j)));
    }
}

/// Nothing is left of a text by trimming exactly if all of it is white space.
pub proof fn law_blank_text_is_trimmed_away(s: Seq<char>)
    ensures
        trimmed(s).len() == 0 <==> is_blank(s),
{
    law_trimmed_is_the_core(s, trimmed(s));
    let (front, back) = choose|front: Seq<char>, back: Seq<char>|
        is_blank(front) && is_blank(back) && s == #[trigger] (front + trimmed(s) + back);
    if trimmed(s).len() > 0 {
        assert(s[front.len() as int] == trimmed(s)[0]);
    } else {
        assert forall|i: int| 0 <= i < s.len() implies is_white(#[trigger] s[i]) by {
            if i < front.len() {
                assert(s[i] == front[i]);
            } else {
                assert(s[i] == back[i - front.len()]);
            }
        }
    }
}

/// A part is found in a text exactly if the text is that part with something, or
/// nothing, before it and behind it.
pub proof fn law_part_stands_between(s: Seq<char>, part: Seq<char>)
    ensures
        has_part(s, part) <==> exists|a: Seq<char>, b: Seq<char>| s == #[trigger] (a + part + b),
{
    if has_part(s, part) {
        let i = choose|i: int| occurs_at(s, part, i);
        assert(s =~= s.take(i) + part + s.skip(i + part.len()));
    }
    if exists|a: Seq<char>, b: Seq<char>| s == #[trigger] (a + part + b) {
        let (a, b) = choose|a: Seq<char>, b: Seq<char>| s == #[trigger] (a + part + b);
        let i = a.len() as int;
        assert(s.subrange(i, i + part.len()) =~= part);
        assert(occurs_at(s, part, i));
    }
}

/// A text starts with a part exactly if it is that part and something, or nothing,
/// behind it.
pub proof fn law_prefix_stands_in_front(s: Seq<char>, part: Seq<char>)
    ensures
        has_prefix(s, part) <==> exists|b: Seq<char>| s == #[trigger] (part + b),
{
    if has_prefix(s, part) {
        assert(s =~= part + s.skip(part.len() as int));
    }
    if exists|b: Seq<char>| s == #[trigger] (part + b) {
        assert(s.subrange(0, part.len() as int) =~= part);
    }
}

/// A text ends with a part exactly if it is something, or nothing, and that part
/// behind it.
pub proof fn law_suffix_stands_at_the_end(s: Seq<char>, part: Seq<char>)
    ensures
        has_suffix(s, part) <==> exists|a: Seq<char>| s == #[trigger] (a + part),
{
    let n = s.len() - part.len();
    if has_suffix(s, part) {
        assert(s =~= s.take(n) + part);
    }
    if exists|a: Seq<char>| s == #[trigger] (a + part) {
        assert(s.subrange(n, n + part.len()) =~= part);
    }
}

/// Any number of `c` is taken off the end of a text, and nothing else.
pub proof fn law_trailing_characters_are_taken_off(s: Seq<char>, c: char, n: nat)
    requires
        s.len() > 0 ==> s.last() != c,
    ensures
        without_trailing(s + Seq::new(n, |i: int| c), c) == s,
    decreases n,
{
    let whole = s + Seq::new(n, |i: int| c);
    if n == 0 {
        assert(whole =~= s);
    } else {
        let fewer = (n - 1) as nat;
        assert(whole.last() == c);
        assert(whole.drop_last() =~= s + Seq::new(fewer, |i: int| c));
        law_trailing_characters_are_taken_off(s, c, fewer);
    }
}

/// A text is cut before its first `c`; where there is none, it is left whole.
pub proof fn law_text_before_the_first(a: Seq<char>, c: char, b: Seq<char>)
    requires
        !a.contains(c),
    ensures
        before_first(a + seq![c] + b, c) == a,
        before_first(a, c) == a,
    decreases a.len(),
{
    let whole = a + seq![c] + b;
    if a.len() == 0 {
        assert(whole[0] == c);
        assert(before_first(a, c) =~= a);
    } else {
        let rest = a.drop_first();
        assert(a.contains(a[0]));
        assert forall|i: int| 0 <= i < rest.len() implies rest[i] != c by {
            assert(a.contains(a[i + 1]));
        }
        law_text_before_the_first(rest, c, b);
        assert(whole.drop_first() =~= rest + seq![c] + b);
        assert(seq![a[0]] + rest =~= a);
    }
}

/// A text is cut behind its last `c`; where there is none, it is left whole.
pub proof fn law_text_behind_the_last(a: Seq<char>, c: char, b: Seq<char>)
    requires
        !b.contains(c),
    ensures
        after_last(a + seq![c] + b, c) == b,
        after_last(b, c) == b,
    decreases b.len(),
{
    let whole = a + seq![c] + b;
    if b.len() == 0 {
        assert(whole.last() == c);
        assert(after_last(b, c) =~= b);
    } else {
        let rest = b.drop_last();
        assert(b.contains(b.last()));
        assert forall|i: int| 0 <= i < rest.len() implies rest[i] != c by {
            assert(b.contains(b[i]));
        }
        law_text_behind_the_last(a, c, rest);
        assert(whole.drop_last() =~= a + seq![c] + rest);
        assert(rest.push(b.last()) =~= b);
    }
}

/// The two characters are the same, or one is an ASCII capital and the other its
/// small letter.
pub open spec fn same_letter(a: char, b: char) -> bool {
    ||| a == b
    ||| 'A' <= a <= 'Z' && b as u32 == a as u32 + 32
    ||| 'A' <= b <= 'Z' && a as u32 == b as u32 + 32
}

/// Two texts count as the same exactly if they are equally long and are, character
/// by character, the same up to the case of ASCII letters.
pub proof fn law_case_is_ignored_letter_by_letter(a: Seq<char>, b: Seq<char>)
    ensures
        same_ignoring_ascii_case(a, b) <==> a.len() == b.len() && forall|i: int|
            0 <= i < a.len() ==> same_letter(#[trigger] a[i], b[i]),
{
    assert forall|x: char, y: char| same_letter(x, y) == (#[trigger] ascii_lower(x)
        == #[trigger] ascii_lower(y)) by {}
    if a.len() == b.len() && (forall|i: int| 0 <= i < a.len() ==> same_letter(#[trigger] a[i], b[i])) {
        assert forall|i: int| 0 <= i < a.len() implies ascii_lower(#[trigger] a[i]) == ascii_lower(
            b[i],
        ) by {
            assert(same_letter(a[i], b[i]));
        }
    }
}

/// The number that a text of decimal digits stands for.
pub open spec fn number_written(s: Seq<char>) -> nat
    decreases s.len(),
{
    if s.len() == 0 {
        0
    } else {
        number_written(s.drop_last()) * 10 + (s.last() as u32 - '0' as u32) as nat
    }
}

/// A number in decimal is made of digits, without a zero in front of others, and
/// stands for that number.
pub proof fn law_decimal_stands_for_its_number(n: nat)
    ensures
        decimal(n).len() > 0,
        forall|i: int| 0 <= i < decimal(n).len() ==> '0' <= #[trigger] decimal(n)[i] <= '9',
        decimal(n).len() > 1 ==> decimal(n)[0] != '0',
        number_written(decimal(n)) == n,
    decreases n,
{
    let s = decimal(n);
    if n < 10 {
        assert(s.drop_last() =~= Seq::<char>::empty());
        assert(number_written(s.drop_last()) == 0);
    } else {
        law_decimal_stands_for_its_number(n / 10);
        let front = decimal(n / 10);
        assert(s.drop_last() =~= front);
        assert(s[0] == front[0]);
        if front.len() == 1 {
            assert(front.drop_last() =~= Seq::<char>::empty());
            assert(number_written(front.drop_last()) == 0);
        }
    }
}

/// What a text becomes in lower case: an ASCII text keeps its length, and each
/// character becomes itself or its small letter and is no capital then.
pub proof fn law_lower_case_of_ascii(s: Seq<char>)
    requires
        forall|i: int| 0 <= i < s.len() ==> (#[trigger] s[i]) as u32 <= 127,
    ensures
        lowercase(s).len() == s.len(),
        forall|i: int|
            0 <= i < s.len() ==> same_letter(s[i], #[trigger] lowercase(s)[i]) && !('A'
                <= lowercase(s)[i] <= 'Z'),
{
    let p = lower_pieces(s);
    assert forall|i: int| 0 <= i < p.len() implies (#[trigger] p[i]).len() == 1 by {
        assert(s[i] as u32 <= 127);
    }
    lemma_flatten_singles(p);
    assert forall|i: int| 0 <= i < s.len() implies same_letter(s[i], #[trigger] lowercase(s)[i]) && !(
    'A' <= lowercase(s)[i] <= 'Z') by {
        assert(s[i] as u32 <= 127);
        assert(p[i] == seq![ascii_lower(s[i])]);
    }
}

/// Pieces of one character each are joined to those characters.
proof fn lemma_flatten_singles(p: Seq<Seq<char>>)
    requires
        forall|i: int| 0 <= i < p.len() ==> (#[trigger] p[i]).len() == 1,
    ensures
        p.flatten().len() == p.len(),
        forall|i: int| 0 <= i < p.len() ==> #[trigger] p.flatten()[i] == p[i][0],
    decreases p.len(),
{
    if p.len() > 0 {
        let rest = p.drop_first();
        assert forall|i: int| 0 <= i < rest.len() implies (#[trigger] rest[i]).len() == 1 by {
            assert(p[i + 1].len() == 1);
        }
        lemma_flatten_singles(rest);
        assert(p[0].len() == 1);
        assert forall|i: int| 0 <= i < p.len() implies #[trigger] p.flatten()[i] == p[i][0] by {
            if i > 0 {
                assert(rest.flatten()[i - 1] == rest[i - 1][0]);
            }
        }
    }
}

/// A part of ASCII letters in a text stands, in lower case, in the lower case of
/// the text, whatever surrounds it.
pub proof fn law_lower_case_keeps_parts(a: Seq<char>, part: Seq<char>, b: Seq<char>, low: Seq<char>)
    requires
        part.len() == low.len(),
        forall|i: int|
            0 <= i < part.len() ==> same_letter(#[trigger] part[i], low[i]) && 'a' <= low[i] <= 'z',
    ensures
        exists|x: Seq<char>, y: Seq<char>| lowercase(a + part + b) == #[trigger] (x + low + y),
{
    let s = a + part + b;
    let p = lower_pieces(s);
    let i = a.len() as int;
    let j = i + part.len();
    let mid = p.subrange(i, j);
    assert forall|k: int| 0 <= k < mid.len() implies (#[trigger] mid[k]).len() == 1 && mid[k][0]
        == low[k] by {
        assert(s[i + k] == part[k]);
        assert(same_letter(part[k], low[k]));
        assert(mid[k] == seq![ascii_lower(part[k])]);
    }
    lemma_flatten_singles(mid);
    assert(mid.flatten() =~= low);
    assert(p =~= p.take(i) + (mid + p.skip(j)));
    lemma_flatten_concat(p.take(i), mid + p.skip(j));
    lemma_flatten_concat(mid, p.skip(j));
    let x = p.take(i).flatten();
    let y = p.skip(j).flatten();
    assert(lowercase(s) =~= x + low + y);
}

/// What is left in front of a stripped text is not white.
proof fn lemma_strip_front_starts(s: Seq<char>)
    ensures
        strip_front(s).len() > 0 ==> !is_white(strip_front(s)[0]),
    decreases s.len(),
{
    if s.len() > 0 && is_white(s[0]) {
        lemma_strip_front_starts(s.drop_first());
    }
}

/// What is left at the end of a stripped text is not white, and its start is the
/// start of the text.
proof fn lemma_strip_back_ends(s: Seq<char>)
    ensures
        strip_back(s).len() > 0 ==> !is_white(strip_back(s).last()) && strip_back(s)[0] == s[0],
    decreases s.len(),
{
    if s.len() > 0 && is_white(s.last()) {
        lemma_strip_back_ends(s.drop_last());
        if s.drop_last().len() > 0 {
            assert(s.drop_last()[0] == s[0]);
        }
    }
}

/// Stripping in front leaves an end of the text, white space before it.
proof fn lemma_strip_front_is_suffix(s: Seq<char>) -> (i: int)
    ensures
        0 <= i <= s.len(),
        strip_front(s) == s.skip(i),
        forall|k: int| 0 <= k < i ==> is_white(#[trigger] s[k]),
    decreases s.len(),
{
    if s.len() > 0 && is_white(s[0]) {
        let i = lemma_strip_front_is_suffix(s.drop_first());
        assert(s.drop_first().skip(i) =~= s.skip(i + 1));
        assert forall|k: int| 0 <= k < i + 1 implies is_white(#[trigger] s[k]) by {
            if k > 0 {
                assert(s.drop_first()[k - 1] == s[k]);
            }
        }
        i + 1
    } else {
        assert(s.skip(0) =~= s);
        0
    }
}

/// Stripping at the end leaves a start of the text, white space behind it.
proof fn lemma_strip_back_is_prefix(s: Seq<char>) -> (n: int)
    ensures
        0 <= n <= s.len(),
        strip_back(s) == s.take(n),
        forall|k: int| n <= k < s.len() ==> is_white(#[trigger] s[k]),
    decreases s.len(),
{
    if s.len() > 0 && is_white(s.last()) {
        let n = lemma_strip_back_is_prefix(s.drop_last());
        assert(s.drop_last().take(n) =~= s.take(n));
        assert forall|k: int| n <= k < s.len() implies is_white(#[trigger] s[k]) by {
            if k < s.len() - 1 {
                assert(s.drop_last()[k] == s[k]);
            }
        }
        n
    } else {
        assert(s.take(s.len() as int) =~= s);
        s.len() as int
    }
}

} // verus!
