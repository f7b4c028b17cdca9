//! Text primitives: trimming, searching, splitting, and decimal numbers.
//!
//! Contracts speak of a string as the sequence of its characters. Positions are
//! character positions.

use vstd::prelude::*;

verus! {

// ---------------------------------------------------------------------------
// White space
// ---------------------------------------------------------------------------
/// Whether `c` has the Unicode property `White_Space`.
pub open spec fn is_white_space(c: char) -> bool {
    let n = c as u32;
    ||| 0x9 <= n <= 0xd
    ||| n == 0x20
    ||| n == 0x85
    ||| n == 0xa0
    ||| n == 0x1680
    ||| 0x2000 <= n <= 0x200a
    ||| n == 0x2028
    ||| n == 0x2029
    ||| n == 0x202f
    ||| n == 0x205f
    ||| n == 0x3000
}

/// Tests a character for the Unicode property `White_Space`.
pub fn white_space(c: char) -> (b: bool)
    ensures
        b == is_white_space(c),
{
    let n: u32 = c as u32;
    (0x9 <= n && n <= 0xd) || n == 0x20 || n == 0x85 || n == 0xa0 || n == 0x1680 || (0x2000 <= n
        && n <= 0x200a) || n == 0x2028 || n == 0x2029 || n == 0x202f || n == 0x205f || n == 0x3000
}

/// `s` without its leading white space.
pub open spec fn spec_trim_start(s: Seq<char>) -> Seq<char>
    decreases s.len(),
{
    if s.len() > 0 && is_white_space(s[0]) {
        spec_trim_start(s.drop_first())
    } else {
        s
    }
}

/// `s` without its trailing white space.
pub open spec fn spec_trim_end(s: Seq<char>) -> Seq<char>
    decreases s.len(),
{
    if s.len() > 0 && is_white_space(s.last()) {
        spec_trim_end(s.drop_last())
    } else {
        s
    }
}

/// `s` without its leading and trailing white space.
pub open spec fn spec_trim(s: Seq<char>) -> Seq<char> {
    spec_trim_end(spec_trim_start(s))
}

proof fn lemma_trim_start_at(s: Seq<char>, a: int)
    requires
        0 <= a <= s.len(),
        forall|k: int| 0 <= k < a ==> is_white_space(#[trigger] s[k]),
        a < s.len() ==> !is_white_space(s[a]),
    ensures
        spec_trim_start(s) == s.skip(a),
    decreases s.len(),
{
    if a == 0 {
        assert(s.skip(0) =~= s);
    } else {
        assert(is_white_space(s[0]));
        let t = s.drop_first();
        assert forall|k: int| 0 <= k < a - 1 implies is_white_space(#[trigger] t[k]) by {
            assert(t[k] == s[k + 1]);
        }
        lemma_trim_start_at(t, a - 1);
        assert(t.skip(a - 1) =~= s.skip(a));
    }
}

proof fn lemma_trim_end_at(s: Seq<char>, b: int)
    requires
        0 <= b <= s.len(),
        forall|k: int| b <= k < s.len() ==> is_white_space(#[trigger] s[k]),
        b > 0 ==> !is_white_space(s[b - 1]),
    ensures
        spec_trim_end(s) == s.take(b),
    decreases s.len(),
{
    if b == s.len() {
        assert(s.take(b) =~= s);
    } else {
        assert(is_white_space(s.last()));
        let t = s.drop_last();
        assert forall|k: int| b <= k < t.len() implies is_white_space(#[trigger] t[k]) by {
            assert(t[k] == s[k]);
        }
        lemma_trim_end_at(t, b);
        assert(t.take(b) =~= s.take(b));
    }
}

/// Trimming keeps the part from the first to the last character that is not
/// white space.
pub proof fn lemma_trim_at(s: Seq<char>, a: int, b: int)
    requires
        0 <= a <= b <= s.len(),
        forall|k: int| 0 <= k < a ==> is_white_space(#[trigger] s[k]),
        forall|k: int| b <= k < s.len() ==> is_white_space(#[trigger] s[k]),
        a < b ==> !is_white_space(s[a]) && !is_white_space(s[b - 1]),
        a == b ==> a == s.len(),
    ensures
        spec_trim(s) == s.subrange(a, b),
{
    lemma_trim_start_at(s, a);
    let t = s.skip(a);
    assert forall|k: int| b - a <= k < t.len() implies is_white_space(#[trigger] t[k]) by {
        assert(t[k] == s[k + a]);
    }
    if a < b {
        assert(t[b - a - 1] == s[b - 1]);
    }
    lemma_trim_end_at(t, b - a);
    assert(t.take(b - a) =~= s.subrange(a, b));
}

/// A text whose first and last characters are not white space is its own trim.
pub proof fn lemma_trim_tight(s: Seq<char>)
    requires
        s.len() > 0 ==> !is_white_space(s[0]) && !is_white_space(s.last()),
    ensures
        spec_trim(s) == s,
{
}

/// What trimming leaves neither starts nor ends with white space, and is not
/// longer than what it was given.
pub proof fn lemma_trim_edges(s: Seq<char>)
    ensures
        spec_trim(s).len() <= s.len(),
        spec_trim(s).len() > 0 ==> !is_white_space(spec_trim(s)[0]) && !is_white_space(
            spec_trim(s).last(),
        ),
{
    lemma_trim_start_edge(s);
    lemma_trim_end_edge(spec_trim_start(s));
}

proof fn lemma_trim_start_edge(s: Seq<char>)
    ensures
        spec_trim_start(s).len() <= s.len(),
        spec_trim_start(s).len() > 0 ==> !is_white_space(spec_trim_start(s)[0]),
    decreases s.len(),
{
    if s.len() > 0 && is_white_space(s[0]) {
        lemma_trim_start_edge(s.drop_first());
    }
}

proof fn lemma_trim_end_edge(s: Seq<char>)
    ensures
        spec_trim_end(s).len() <= s.len(),
        spec_trim_end(s).len() > 0 ==> spec_trim_end(s)[0] == s[0] && !is_white_space(
            spec_trim_end(s).last(),
        ),
    decreases s.len(),
{
    if s.len() > 0 && is_white_space(s.last()) {
        lemma_trim_end_edge(s.drop_last());
    }
}

/// Removes leading and trailing white space.
pub fn trim(s: &str) -> (r: &str)
    ensures
        r@ == spec_trim(s@),
{
    let n: usize = s.unicode_len();
    let mut i: usize = 0;
    let mut a: usize = n;
    let mut b: usize = n;
    for c in it: s.chars()
        invariant
            i == it.index(),
            it.seq() == s@,
            n == s@.len(),
            a == n ==> b == n && forall|k: int| 0 <= k < i ==> is_white_space(#[trigger] s@[k]),
            a != n ==> {
                &&& a < b <= i
                &&& forall|k: int| 0 <= k < a ==> is_white_space(#[trigger] s@[k])
                &&& !is_white_space(s@[a as int])
                &&& !is_white_space(s@[b - 1])
                &&& forall|k: int| b <= k < i ==> is_white_space(#[trigger] s@[k])
            },
    {
        if !white_space(c) {
            if a == n {
                a = i;
            }
            b = i + 1;
        }
        i = i + 1;
    }
    proof {
        lemma_trim_at(s@, a as int, b as int);
    }
    s.substring_char(a, b)
}

// ---------------------------------------------------------------------------
// Searching
// ---------------------------------------------------------------------------
/// The first position at or after `i` that holds `a` or `b`.
pub open spec fn first_of_from(s: Seq<char>, a: char, b: char, i: int) -> Option<int>
    decreases s.len() - i,
{
    if i >= s.len() {
        None
    } else if s[i] == a || s[i] == b {
        Some(i)
    } else {
        first_of_from(s, a, b, i + 1)
    }
}

/// The first position that holds `a` or `b`.
pub open spec fn first_of(s: Seq<char>, a: char, b: char) -> Option<int> {
    first_of_from(s, a, b, 0)
}

/// The first position that holds `c`.
pub open spec fn index_of(s: Seq<char>, c: char) -> Option<int> {
    first_of(s, c, c)
}

/// A position as a mathematical integer.
pub open spec fn position(r: Option<usize>) -> Option<int> {
    match r {
        Some(i) => Some(i as int),
        None => None,
    }
}

proof fn lemma_first_of_from_at(s: Seq<char>, a: char, b: char, i: int, p: int)
    requires
        0 <= i <= p <= s.len(),
        forall|k: int| i <= k < p ==> #[trigger] s[k] != a && s[k] != b,
        p < s.len() ==> s[p] == a || s[p] == b,
    ensures
        first_of_from(s, a, b, i) == if p < s.len() {
            Some(p)
        } else {
            None::<int>
        },
    decreases p - i,
{
    if i < p {
        lemma_first_of_from_at(s, a, b, i + 1, p);
    }
}

/// The first position that holds `a` or `b` is `p`, or there is none if `p` is
/// the length.
pub proof fn lemma_first_of_at(s: Seq<char>, a: char, b: char, p: int)
    requires
        0 <= p <= s.len(),
        forall|k: int| 0 <= k < p ==> #[trigger] s[k] != a && s[k] != b,
        p < s.len() ==> s[p] == a || s[p] == b,
    ensures
        first_of(s, a, b) == if p < s.len() {
            Some(p)
        } else {
            None::<int>
        },
{
    lemma_first_of_from_at(s, a, b, 0, p);
}

proof fn lemma_first_of_from_meaning(s: Seq<char>, a: char, b: char, i: int)
    requires
        0 <= i,
    ensures
        match first_of_from(s, a, b, i) {
            Some(p) => {
                &&& i <= p < s.len()
                &&& s[p] == a || s[p] == b
                &&& forall|k: int| i <= k < p ==> #[trigger] s[k] != a && s[k] != b
            },
            None => forall|k: int| i <= k < s.len() ==> #[trigger] s[k] != a && s[k] != b,
        },
    decreases s.len() - i,
{
    if i < s.len() && !(s[i] == a || s[i] == b) {
        lemma_first_of_from_meaning(s, a, b, i + 1);
    }
}

/// What `first_of` reports.
pub proof fn lemma_first_of(s: Seq<char>, a: char, b: char)
    ensures
        match first_of(s, a, b) {
            Some(p) => {
                &&& 0 <= p < s.len()
                &&& s[p] == a || s[p] == b
                &&& forall|k: int| 0 <= k < p ==> #[trigger] s[k] != a && s[k] != b
            },
            None => forall|k: int| 0 <= k < s.len() ==> #[trigger] s[k] != a && s[k] != b,
        },
{
    lemma_first_of_from_meaning(s, a, b, 0);
}

/// Finds the first character that is `a` or `b`.
pub fn find_either(s: &str, a: char, b: char) -> (r: Option<usize>)
    ensures
        position(r) == first_of(s@, a, b),
        r is Some ==> r->0 < s@.len() <= usize::MAX,
{
    let n: usize = s.unicode_len();
    let mut i: usize = 0;
    for c in it: s.chars()
        invariant
            i == it.index(),
            it.seq() == s@,
            n == s@.len(),
            first_of(s@, a, b) == first_of_from(s@, a, b, i as int),
    {
        if c == a || c == b {
            return Some(i);
        }
        i = i + 1;
    }
    None
}

/// Finds the first occurrence of `c`.
pub fn find(s: &str, c: char) -> (r: Option<usize>)
    ensures
        position(r) == index_of(s@, c),
        r is Some ==> r->0 < s@.len() <= usize::MAX,
{
    find_either(s, c, c)
}

/// Lists the characters of a text.
pub fn chars(s: &str) -> (r: Vec<char>)
    ensures
        r@ == s@,
{
    let mut r: Vec<char> = Vec::new();
    for c in it: s.chars()
        invariant
            it.seq() == s@,
            r@ == s@.take(it.index() as int),
    {
        r.push(c);
        assert(r@ =~= s@.take(it.index() + 1));
    }
    assert(r@ =~= s@);
    r
}

/// The part of `s` before position `i`.
pub fn before(s: &str, i: usize) -> (r: &str)
    requires
        i <= s@.len(),
    ensures
        r@ == s@.take(i as int),
{
    s.substring_char(0, i)
}

/// The part of `s` that starts at position `i`.
pub fn after(s: &str, i: usize) -> (r: &str)
    requires
        i <= s@.len(),
    ensures
        r@ == s@.skip(i as int),
{
    let n: usize = s.unicode_len();
    let r = s.substring_char(i, n);
    assert(r@ =~= s@.skip(i as int));
    r
}

// ---------------------------------------------------------------------------
// Comparing
// ---------------------------------------------------------------------------
/// Compares two strings.
pub fn same(a: &str, b: &str) -> (r: bool)
    ensures
        r == (a@ == b@),
{
    let x = a.as_bytes();
    let y = b.as_bytes();
    proof {
        vstd::utf8::encode_utf8_decode_utf8(a@);
        vstd::utf8::encode_utf8_decode_utf8(b@);
    }
    if x.len() != y.len() {
        return false;
    }
    let mut i: usize = 0;
    while i < x.len()
        invariant
            i <= x.len(),
            x.len() == y.len(),
            x@ == vstd::utf8::encode_utf8(a@),
            y@ == vstd::utf8::encode_utf8(b@),
            forall|k: int| 0 <= k < i ==> x@[k] == y@[k],
        decreases x.len() - i,
    {
        if x[i] != y[i] {
            return false;
        }
        i = i + 1;
    }
    assert(x@ =~= y@);
    true
}

/// Whether `s` begins with `prefix`.
pub fn starts_with(s: &str, prefix: &str) -> (r: bool)
    ensures
        r == prefix@.is_prefix_of(s@),
{
    let n: usize = s.unicode_len();
    let m: usize = prefix.unicode_len();
    if m > n {
        return false;
    }
    same(before(s, m), prefix)
}

/// Whether `s` ends with `suffix`.
pub fn ends_with(s: &str, suffix: &str) -> (r: bool)
    ensures
        r == suffix@.is_suffix_of(s@),
{
    let n: usize = s.unicode_len();
    let m: usize = suffix.unicode_len();
    if m > n {
        return false;
    }
    same(after(s, n - m), suffix)
}

/// The texts that a list of strings holds.
pub open spec fn texts(v: Seq<String>) -> Seq<Seq<char>> {
    v.map_values(|s: String| s@)
}

/// Whether `list` holds `s`.
pub fn list_contains(list: &Vec<String>, s: &str) -> (r: bool)
    ensures
        r == texts(list@).contains(s@),
{
    let mut i: usize = 0;
    while i < list.len()
        invariant
            i <= list.len(),
            forall|k: int| 0 <= k < i ==> texts(list@)[k] != s@,
        decreases list.len() - i,
    {
        if same(list[i].as_str(), s) {
            assert(texts(list@)[i as int] == s@);
            return true;
        }
        i = i + 1;
    }
    false
}

/// `c` with `A` to `Z` turned into `a` to `z`.
pub open spec fn ascii_lower(c: char) -> char {
    if 'A' <= c <= 'Z' {
        ((c as u32) + 32) as char
    } else {
        c
    }
}

/// `s` with every `A` to `Z` turned into `a` to `z`.
pub open spec fn ascii_lowercase(s: Seq<char>) -> Seq<char> {
    s.map_values(|c: char| ascii_lower(c))
}

/// `c` with `a` to `z` turned into `A` to `Z`.
pub open spec fn ascii_upper(c: char) -> char {
    if 'a' <= c <= 'z' {
        ((c as u32) - 32) as char
    } else {
        c
    }
}

/// `s` with every `a` to `z` turned into `A` to `Z`.
pub open spec fn ascii_uppercase(s: Seq<char>) -> Seq<char> {
    s.map_values(|c: char| ascii_upper(c))
}

/// Upper case makes no difference to lower case.
pub proof fn lemma_lower_of_upper(s: Seq<char>)
    ensures
        ascii_lowercase(ascii_uppercase(s)) == ascii_lowercase(s),
{
    assert(ascii_lowercase(ascii_uppercase(s)) =~= ascii_lowercase(s));
}

/// Trimming and turning to lower case can be done in either order.
pub proof fn lemma_trim_of_lower(s: Seq<char>)
    ensures
        spec_trim(ascii_lowercase(s)) == ascii_lowercase(spec_trim(s)),
{
    lemma_trim_start_of_lower(s);
    lemma_trim_end_of_lower(spec_trim_start(s));
}

proof fn lemma_trim_start_of_lower(s: Seq<char>)
    ensures
        spec_trim_start(ascii_lowercase(s)) == ascii_lowercase(spec_trim_start(s)),
    decreases s.len(),
{
    if s.len() > 0 {
        assert(ascii_lowercase(s)[0] == ascii_lower(s[0]));
        assert(ascii_lowercase(s).drop_first() =~= ascii_lowercase(s.drop_first()));
        lemma_trim_start_of_lower(s.drop_first());
    }
}

proof fn lemma_trim_end_of_lower(s: Seq<char>)
    ensures
        spec_trim_end(ascii_lowercase(s)) == ascii_lowercase(spec_trim_end(s)),
    decreases s.len(),
{
    if s.len() > 0 {
        assert(ascii_lowercase(s).last() == ascii_lower(s.last()));
        assert(ascii_lowercase(s).drop_last() =~= ascii_lowercase(s.drop_last()));
        lemma_trim_end_of_lower(s.drop_last());
    }
}

/// White space around a text makes no difference to its trim.
pub proof fn lemma_trim_of_padded(left: Seq<char>, s: Seq<char>, right: Seq<char>)
    requires
        forall|k: int| 0 <= k < left.len() ==> is_white_space(#[trigger] left[k]),
        forall|k: int| 0 <= k < right.len() ==> is_white_space(#[trigger] right[k]),
    ensures
        spec_trim(left + s + right) == spec_trim(s),
    decreases left.len() + right.len(),
{
    let padded = left + s + right;
    if left.len() > 0 {
        assert(padded[0] == left[0]);
        assert(padded.drop_first() =~= left.drop_first() + s + right);
        assert forall|k: int| 0 <= k < left.drop_first().len() implies is_white_space(
            #[trigger] left.drop_first()[k],
        ) by {
            assert(left.drop_first()[k] == left[k + 1]);
        }
        lemma_trim_of_padded(left.drop_first(), s, right);
    } else if right.len() > 0 {
        assert(padded =~= s + right);
        assert(padded.last() == right.last());
        let less = right.drop_last();
        assert(padded.drop_last() =~= left + s + less);
        assert forall|k: int| 0 <= k < less.len() implies is_white_space(#[trigger] less[k]) by {
            assert(less[k] == right[k]);
        }
        lemma_trim_of_padded(left, s, less);
        lemma_trim_drops_last(padded);
    } else {
        assert(padded =~= s);
    }
}

/// White space at the end makes no difference to a trim.
proof fn lemma_trim_drops_last(s: Seq<char>)
    requires
        s.len() > 0,
        is_white_space(s.last()),
    ensures
        spec_trim(s) == spec_trim(s.drop_last()),
    decreases s.len(),
{
    if is_white_space(s[0]) {
        if s.len() == 1 {
            assert(s.drop_first() =~= s.drop_last());
            assert(s.drop_last().len() == 0);
            assert(spec_trim_start(s) == spec_trim_start(s.drop_first()));
        } else {
            lemma_trim_drops_last(s.drop_first());
            assert(s.drop_first().drop_last() =~= s.drop_last().drop_first());
            assert(s.drop_last()[0] == s[0]);
            assert(spec_trim_start(s) == spec_trim_start(s.drop_first()));
            assert(spec_trim_start(s.drop_last()) == spec_trim_start(s.drop_last().drop_first()));
        }
    } else {
        assert(s.len() > 1);
        assert(s.drop_last()[0] == s[0]);
        assert(spec_trim_start(s) == s);
        assert(spec_trim_start(s.drop_last()) == s.drop_last());
    }
}

fn lower_code(c: char) -> (r: u32)
    ensures
        r == ascii_lower(c) as u32,
{
    let n: u32 = c as u32;
    if 'A' <= c && c <= 'Z' {
        n + 32
    } else {
        n
    }
}

/// Compares `s`, in lower case, with `word`.
pub fn lowercase_is(s: &str, word: &str) -> (r: bool)
    ensures
        r == (ascii_lowercase(s@) == word@),
{
    let n: usize = s.unicode_len();
    if n != word.unicode_len() {
        assert(ascii_lowercase(s@).len() != word@.len());
        return false;
    }
    let mut i: usize = 0;
    for c in it: s.chars()
        invariant
            i == it.index(),
            it.seq() == s@,
            n == s@.len(),
            n == word@.len(),
            forall|k: int| 0 <= k < i ==> #[trigger] ascii_lowercase(s@)[k] == word@[k],
    {
        let w: char = word.get_char(i);
        if lower_code(c) != w as u32 {
            assert(ascii_lowercase(s@)[i as int] != word@[i as int]);
            return false;
        }
        i = i + 1;
    }
    assert(ascii_lowercase(s@) =~= word@);
    true
}

// ---------------------------------------------------------------------------
// Splitting
// ---------------------------------------------------------------------------
/// The pieces of `s` between the occurrences of `sep`: one more than there are
/// occurrences.
pub open spec fn spec_split(s: Seq<char>, sep: char) -> Seq<Seq<char>>
    decreases s.len(),
{
    if s.len() == 0 {
        seq![Seq::empty()]
    } else {
        let rest = spec_split(s.drop_last(), sep);
        if s.last() == sep {
            rest.push(Seq::empty())
        } else {
            rest.drop_last().push(rest.last().push(s.last()))
        }
    }
}

/// The texts that a list of string slices holds.
pub open spec fn slices(v: Seq<&str>) -> Seq<Seq<char>> {
    v.map_values(|s: &str| s@)
}

/// Splits `s` at every `sep`.
pub fn split<'a>(s: &'a str, sep: char) -> (r: Vec<&'a str>)
    ensures
        slices(r@) == spec_split(s@, sep),
{
    let n: usize = s.unicode_len();
    let mut pieces: Vec<&'a str> = Vec::new();
    let mut start: usize = 0;
    let mut i: usize = 0;
    assert(s@.take(0) =~= Seq::<char>::empty());
    assert(slices(pieces@).push(s@.subrange(0, 0)) =~= spec_split(s@.take(0), sep));
    for c in it: s.chars()
        invariant
            i == it.index(),
            it.seq() == s@,
            n == s@.len(),
            start <= i,
            spec_split(s@.take(i as int), sep) == slices(pieces@).push(
                s@.subrange(start as int, i as int),
            ),
    {
        let ghost done = pieces@;
        let ghost piece = s@.subrange(start as int, i as int);
        assert(s@.take(i + 1).drop_last() =~= s@.take(i as int));
        assert(s@.take(i + 1).last() == c);
        if c == sep {
            pieces.push(s.substring_char(start, i));
            assert(slices(pieces@) =~= slices(done).push(piece));
            start = i + 1;
            assert(s@.subrange(start as int, i + 1) =~= Seq::<char>::empty());
        } else {
            assert(slices(done).push(piece).drop_last() =~= slices(done));
            assert(s@.subrange(start as int, i + 1) =~= piece.push(c));
        }
        i = i + 1;
    }
    let ghost done = pieces@;
    pieces.push(s.substring_char(start, n));
    assert(s@.take(n as int) =~= s@);
    assert(slices(pieces@) =~= slices(done).push(s@.subrange(start as int, n as int)));
    pieces
}

/// A text without `sep` is one piece.
pub proof fn lemma_split_none(s: Seq<char>, sep: char)
    requires
        forall|k: int| 0 <= k < s.len() ==> #[trigger] s[k] != sep,
    ensures
        spec_split(s, sep) == seq![s],
    decreases s.len(),
{
    if s.len() > 0 {
        let t = s.drop_last();
        assert forall|k: int| 0 <= k < t.len() implies #[trigger] t[k] != sep by {
            assert(t[k] == s[k]);
        }
        lemma_split_none(t, sep);
        assert(s.last() == s[s.len() - 1]);
        assert(t.push(s.last()) =~= s);
        assert(spec_split(s, sep) =~= seq![s]);
    } else {
        assert(s =~= Seq::<char>::empty());
    }
}

/// The pieces of a text that is joined by `sep` from two are those of the two.
pub proof fn lemma_split_join(a: Seq<char>, sep: char, b: Seq<char>)
    ensures
        spec_split(a.push(sep) + b, sep) == spec_split(a, sep) + spec_split(b, sep),
        spec_split(b, sep).len() > 0,
    decreases b.len(),
{
    let s = a.push(sep) + b;
    if b.len() == 0 {
        assert(s =~= a.push(sep));
        assert(s.drop_last() =~= a);
        assert(spec_split(s, sep) =~= spec_split(a, sep) + spec_split(b, sep));
    } else {
        let t = b.drop_last();
        lemma_split_join(a, sep, t);
        assert(s.drop_last() =~= a.push(sep) + t);
        assert(s.last() == b.last());
        let left = spec_split(a, sep);
        let right = spec_split(t, sep);
        if b.last() == sep {
            assert((left + right).push(Seq::empty()) =~= left + right.push(Seq::empty()));
        } else {
            assert((left + right).last() == right.last());
            assert((left + right).drop_last() =~= left + right.drop_last());
            let w = right.last().push(b.last());
            assert((left + right.drop_last()).push(w) =~= left + right.drop_last().push(w));
        }
    }
}

/// The maximal runs of characters that are not white space.
pub open spec fn spec_words(s: Seq<char>) -> Seq<Seq<char>>
    decreases s.len(),
{
    if s.len() == 0 {
        Seq::empty()
    } else {
        let rest = spec_words(s.drop_last());
        if is_white_space(s.last()) {
            rest
        } else if s.len() == 1 || is_white_space(s[s.len() - 2]) {
            rest.push(seq![s.last()])
        } else {
            rest.drop_last().push(rest.last().push(s.last()))
        }
    }
}

/// Splits `s` at its white space and leaves out empty pieces.
pub fn words<'a>(s: &'a str) -> (r: Vec<&'a str>)
    ensures
        slices(r@) == spec_words(s@),
{
    let n: usize = s.unicode_len();
    let mut found: Vec<&'a str> = Vec::new();
    let mut start: usize = 0;
    let mut inside: bool = false;
    let mut i: usize = 0;
    assert(s@.take(0) =~= Seq::<char>::empty());
    assert(slices(found@) =~= spec_words(s@.take(0)));
    for c in it: s.chars()
        invariant
            i == it.index(),
            it.seq() == s@,
            n == s@.len(),
            inside == (i > 0 && !is_white_space(s@[i - 1])),
            !inside ==> spec_words(s@.take(i as int)) == slices(found@),
            inside ==> start < i && spec_words(s@.take(i as int)) == slices(found@).push(
                s@.subrange(start as int, i as int),
            ),
    {
        let ghost done = found@;
        let ghost word = s@.subrange(start as int, i as int);
        let ghost now = s@.take(i + 1);
        assert(now.drop_last() =~= s@.take(i as int));
        assert(now.last() == c);
        if i > 0 {
            assert(now[now.len() - 2] == s@[i - 1]);
        }
        if white_space(c) {
            if inside {
                found.push(s.substring_char(start, i));
                assert(slices(found@) =~= slices(done).push(word));
                inside = false;
            }
        } else if inside {
            assert(slices(done).push(word).drop_last() =~= slices(done));
            assert(s@.subrange(start as int, i + 1) =~= word.push(c));
        } else {
            inside = true;
            start = i;
            assert(s@.subrange(start as int, i + 1) =~= seq![c]);
        }
        i = i + 1;
    }
    let ghost done = found@;
    assert(s@.take(n as int) =~= s@);
    if inside {
        found.push(s.substring_char(start, n));
        assert(slices(found@) =~= slices(done).push(s@.subrange(start as int, n as int)));
    }
    found
}

} // verus!
