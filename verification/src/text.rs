//! Text primitives over the character sequence of a string.
//!
//! Every function states its result as a sequence of characters, so callers
//! reason about `s@` and never about UTF-8 offsets.
use vstd::prelude::*;

verus! {

/// `String::push` of std: appends one character at the end.
pub assume_specification[ String::push ](s: &mut String, c: char)
    ensures
        final(s)@ == old(s)@.push(c),
;

// ---------------------------------------------------------------------------
// Characters and slices
// ---------------------------------------------------------------------------
/// The views of a sequence of strings.
pub open spec fn texts(v: Seq<String>) -> Seq<Seq<char>> {
    Seq::new(v.len(), |i: int| v[i]@)
}

/// The view of an optional string.
pub open spec fn opt_text(o: Option<String>) -> Option<Seq<char>> {
    match o {
        Some(s) => Some(s@),
        None => None,
    }
}

/// The view of an optional string slice.
pub open spec fn opt_str(o: Option<&str>) -> Option<Seq<char>> {
    match o {
        Some(s) => Some(s@),
        None => None,
    }
}

/// The characters of `s`, in order.
pub fn chars_of(s: &str) -> (v: Vec<char>)
    ensures
        v@ == s@,
{
    let mut v: Vec<char> = Vec::new();
    for c in it: s.chars()
        invariant
            v@ == it.seq().take(it.index() as int),
            it.seq() == s@,
    {
        v.push(c);
    }
    v
}

/// The string made of `chars[from..to]`.
pub fn string_of(chars: &Vec<char>, from: usize, to: usize) -> (r: String)
    requires
        from <= to <= chars@.len(),
    ensures
        r@ == chars@.subrange(from as int, to as int),
{
    let mut r = String::new();
    let mut i: usize = from;
    while i < to
        invariant
            from <= i <= to <= chars@.len(),
            r@ == chars@.subrange(from as int, i as int),
        decreases to - i,
    {
        r.push(chars[i]);
        assert(chars@.subrange(from as int, i + 1) =~= chars@.subrange(from as int, i as int).push(
            chars@[i as int],
        ));
        i = i + 1;
    }
    r
}

/// `a` followed by `b`.
pub fn concat2(a: &str, b: &str) -> (r: String)
    ensures
        r@ == a@ + b@,
{
    let mut r = a.to_owned();
    r.append(b);
    r
}

/// `a`, `b`, `c`, one after the other.
pub fn concat3(a: &str, b: &str, c: &str) -> (r: String)
    ensures
        r@ == a@ + b@ + c@,
{
    let mut r = a.to_owned();
    r.append(b);
    r.append(c);
    r
}

/// True if both strings hold the same characters.
pub fn same_text(a: &str, b: &str) -> (r: bool)
    ensures
        r == (a@ == b@),
{
    let x = chars_of(a);
    let y = chars_of(b);
    if x.len() != y.len() {
        return false;
    }
    let mut i: usize = 0;
    while i < x.len()
        invariant
            x@ == a@,
            y@ == b@,
            x@.len() == y@.len(),
            i <= x@.len(),
            forall|j: int| 0 <= j < i ==> x@[j] == y@[j],
        decreases x@.len() - i,
    {
        if x[i] != y[i] {
            return false;
        }
        i = i + 1;
    }
    assert(x@ =~= y@);
    true
}

// ---------------------------------------------------------------------------
// ASCII case folding
// ---------------------------------------------------------------------------
/// `A..=Z` moved to `a..=z`; every other character unchanged.
pub open spec fn lower_char(c: char) -> char {
    if 'A' <= c && c <= 'Z' {
        ((c as u32) + 32) as char
    } else {
        c
    }
}

/// The ASCII lower-case form of a text.
pub open spec fn lowered(s: Seq<char>) -> Seq<char> {
    Seq::new(s.len(), |i: int| lower_char(s[i]))
}

/// The ASCII lower-case form of `s`.
pub fn to_lower(s: &str) -> (r: String)
    ensures
        r@ == lowered(s@),
{
    let x = chars_of(s);
    let mut r = String::new();
    let mut i: usize = 0;
    while i < x.len()
        invariant
            x@ == s@,
            i <= x@.len(),
            r@ == lowered(x@).take(i as int),
        decreases x@.len() - i,
    {
        let c = x[i];
        let l = if 'A' <= c && c <= 'Z' {
            (((c as u32) as u8) + 32) as char
        } else {
            c
        };
        r.push(l);
        assert(lowered(x@).take(i + 1) =~= lowered(x@).take(i as int).push(lower_char(c)));
        i = i + 1;
    }
    assert(lowered(x@).take(i as int) =~= lowered(x@));
    r
}

/// True if both texts are equal up to ASCII case.
pub fn same_text_ci(a: &str, b: &str) -> (r: bool)
    ensures
        r == (lowered(a@) == lowered(b@)),
{
    to_lower(a) == to_lower(b)
}

/// Lower-casing twice is lower-casing once.
pub proof fn lowered_idempotent(s: Seq<char>)
    ensures
        lowered(lowered(s)) == lowered(s),
{
    assert forall|i: int| 0 <= i < s.len() implies lower_char(lower_char(s[i])) == lower_char(
        s[i],
    ) by {}
    assert(lowered(lowered(s)) =~= lowered(s));
}

// ---------------------------------------------------------------------------
// Words
// ---------------------------------------------------------------------------
/// The characters with the Unicode `White_Space` property.
pub open spec fn is_space(c: char) -> bool {
    let u = c as u32;
    ||| 0x9 <= u <= 0xD
    ||| u == 0x20
    ||| u == 0x85
    ||| u == 0xA0
    ||| u == 0x1680
    ||| 0x2000 <= u <= 0x200A
    ||| u == 0x2028
    ||| u == 0x2029
    ||| u == 0x202F
    ||| u == 0x205F
    ||| u == 0x3000
}

/// True if `c` has the Unicode `White_Space` property.
pub fn space(c: char) -> (r: bool)
    ensures
        r == is_space(c),
{
    let u = c as u32;
    (0x9 <= u && u <= 0xD) || u == 0x20 || u == 0x85 || u == 0xA0 || u == 0x1680 || (0x2000 <= u
        && u <= 0x200A) || u == 0x2028 || u == 0x2029 || u == 0x202F || u == 0x205F || u == 0x3000
}

/// How many leading characters of `s` are not white space.
pub open spec fn word_len(s: Seq<char>) -> nat
    decreases s.len(),
{
    if s.len() == 0 || is_space(s[0]) {
        0
    } else {
        1 + word_len(s.drop_first())
    }
}

/// A word is no longer than the text it starts.
pub proof fn word_len_bound(s: Seq<char>)
    ensures
        word_len(s) <= s.len(),
    decreases s.len(),
{
    if s.len() > 0 && !is_space(s[0]) {
        word_len_bound(s.drop_first());
    }
}

/// The maximal runs of non-space characters of `s`, in order.
pub open spec fn words_of(s: Seq<char>) -> Seq<Seq<char>>
    decreases s.len(),
{
    if s.len() == 0 {
        Seq::empty()
    } else if is_space(s[0]) {
        words_of(s.drop_first())
    } else {
        proof {
            word_len_bound(s);
        }
        seq![s.take(word_len(s) as int)] + words_of(s.skip(word_len(s) as int))
    }
}

proof fn word_len_scan(s: Seq<char>, n: nat)
    requires
        n <= s.len(),
        forall|j: int| 0 <= j < n ==> !is_space(#[trigger] s[j]),
        n == s.len() || is_space(s[n as int]),
    ensures
        word_len(s) == n,
    decreases s.len(),
{
    if n > 0 {
        let t = s.drop_first();
        assert forall|j: int| 0 <= j < n - 1 implies !is_space(#[trigger] t[j]) by {
            assert(t[j] == s[j + 1]);
        }
        if n < s.len() {
            assert(t[n - 1] == s[n as int]);
        }
        word_len_scan(t, (n - 1) as nat);
    }
}

/// Splits `s` at white space.
pub fn words(s: &str) -> (r: Vec<String>)
    ensures
        texts(r@) == words_of(s@),
{
    let x = chars_of(s);
    let mut r: Vec<String> = Vec::new();
    let mut i: usize = 0;
    assert(s@.skip(0) =~= s@);
    assert(texts(r@) =~= Seq::empty());
    while i < x.len()
        invariant
            x@ == s@,
            i <= x@.len(),
            texts(r@) + words_of(x@.skip(i as int)) == words_of(x@),
        decreases x@.len() - i,
    {
        let ghost rest = x@.skip(i as int);
        if space(x[i]) {
            assert(rest.drop_first() =~= x@.skip(i + 1));
            i = i + 1;
        } else {
            let start: usize = i;
            i = i + 1;
            while i < x.len() && !space(x[i])
                invariant
                    x@ == s@,
                    start < i <= x@.len(),
                    forall|j: int| start <= j < i ==> !is_space(#[trigger] x@[j]),
                decreases x@.len() - i,
            {
                i = i + 1;
            }
            let w = string_of(&x, start, i);
            proof {
                let n = (i - start) as nat;
                assert forall|j: int| 0 <= j < n implies !is_space(#[trigger] rest[j]) by {
                    assert(rest[j] == x@[start + j]);
                }
                if i < x@.len() {
                    assert(rest[n as int] == x@[i as int]);
                }
                word_len_scan(rest, n);
                assert(rest.take(n as int) =~= x@.subrange(start as int, i as int));
                assert(rest.skip(n as int) =~= x@.skip(i as int));
            }
            let ghost before = texts(r@);
            r.push(w);
            assert(texts(r@) =~= before.push(w@));
            assert(before + (seq![w@] + words_of(x@.skip(i as int))) =~= texts(r@) + words_of(
                x@.skip(i as int),
            ));
        }
    }
    assert(x@.skip(i as int) =~= Seq::empty());
    assert(texts(r@) + Seq::<Seq<char>>::empty() =~= texts(r@));
    r
}

/// The texts of `v` with one space between neighbours.
pub open spec fn joined(v: Seq<Seq<char>>) -> Seq<char>
    decreases v.len(),
{
    if v.len() == 0 {
        Seq::empty()
    } else if v.len() == 1 {
        v[0]
    } else {
        joined(v.drop_last()) + seq![' '] + v.last()
    }
}

/// Joins `v[from..]` with single spaces.
pub fn join_words(v: &Vec<String>, from: usize) -> (r: String)
    requires
        from <= v@.len(),
    ensures
        r@ == joined(texts(v@).skip(from as int)),
{
    let ghost t = texts(v@).skip(from as int);
    let mut r = String::new();
    let mut i: usize = from;
    while i < v.len()
        invariant
            from <= i <= v@.len(),
            t == texts(v@).skip(from as int),
            r@ == joined(t.take(i - from)),
        decreases v@.len() - i,
    {
        let ghost p = t.take(i + 1 - from);
        assert(p.drop_last() =~= t.take(i - from));
        assert(p.last() == v@[i as int]@);
        if i > from {
            r.push(' ');
        } else {
            assert(t.take(0) =~= Seq::empty());
        }
        let ghost before = r@;
        r.append(v[i].as_str());
        proof {
            if i == from {
                assert(before + v@[i as int]@ =~= v@[i as int]@);
            } else {
                assert(joined(t.take(i - from)).push(' ') =~= joined(t.take(i - from)) + seq![' ']);
            }
        }
        i = i + 1;
    }
    assert(t.take(i - from) =~= t);
    r
}

// ---------------------------------------------------------------------------
// Search
// ---------------------------------------------------------------------------
/// `pat` stands in `s` at position `i`.
pub open spec fn occurs_at(s: Seq<char>, pat: Seq<char>, i: int) -> bool {
    0 <= i && i + pat.len() <= s.len() && s.subrange(i, i + pat.len()) == pat
}

/// `pat` stands somewhere in `s`.
pub open spec fn occurs(s: Seq<char>, pat: Seq<char>) -> bool {
    exists|i: int| occurs_at(s, pat, i)
}

/// The first position at or after `i` where `pat` stands in `s`.
pub open spec fn find_from(s: Seq<char>, pat: Seq<char>, i: int) -> Option<int>
    decreases s.len() + 1 - i,
{
    if i < 0 || i + pat.len() > s.len() {
        None
    } else if occurs_at(s, pat, i) {
        Some(i)
    } else {
        find_from(s, pat, i + 1)
    }
}

/// [`find_from`] is the least position, and `None` means there is none.
pub proof fn find_from_is_least(s: Seq<char>, pat: Seq<char>, i: int)
    requires
        0 <= i,
    ensures
        match find_from(s, pat, i) {
            Some(k) => i <= k && occurs_at(s, pat, k) && (forall|j: int|
                i <= j < k ==> !occurs_at(s, pat, j)),
            None => forall|j: int| i <= j ==> !occurs_at(s, pat, j),
        },
    decreases s.len() + 1 - i,
{
    if i + pat.len() <= s.len() && !occurs_at(s, pat, i) {
        find_from_is_least(s, pat, i + 1);
    }
}

fn stands_at(s: &Vec<char>, pat: &Vec<char>, i: usize) -> (r: bool)
    requires
        i + pat.len() <= s.len(),
    ensures
        r == occurs_at(s@, pat@, i as int),
{
    let mut j: usize = 0;
    while j < pat.len()
        invariant
            i + pat.len() <= s.len(),
            j <= pat@.len(),
            forall|k: int| 0 <= k < j ==> s@[i + k] == pat@[k],
        decreases pat@.len() - j,
    {
        if s[i + j] != pat[j] {
            assert(s@.subrange(i as int, i + pat@.len())[j as int] != pat@[j as int]);
            return false;
        }
        j = j + 1;
    }
    assert(s@.subrange(i as int, i + pat@.len()) =~= pat@);
    true
}

/// The first position at or after `from` where `pat` stands in `s`.
pub fn find_chars(s: &Vec<char>, pat: &Vec<char>, from: usize) -> (r: Option<usize>)
    requires
        from <= s@.len(),
    ensures
        match r {
            Some(k) => find_from(s@, pat@, from as int) == Some(k as int) && from <= k && k
                + pat.len() <= s.len(),
            None => find_from(s@, pat@, from as int) is None,
        },
{
    let mut i: usize = from;
    while pat.len() <= s.len() - i
        invariant
            from <= i <= s@.len(),
            find_from(s@, pat@, from as int) == find_from(s@, pat@, i as int),
        decreases s@.len() - i,
    {
        if stands_at(s, pat, i) {
            return Some(i);
        }
        if i == s.len() {
            assert(find_from(s@, pat@, i + 1) is None);
            return None;
        }
        i = i + 1;
    }
    None
}

/// True if `pat` stands somewhere in `s`.
pub fn contains(s: &str, pat: &str) -> (r: bool)
    ensures
        r == occurs(s@, pat@),
{
    let x = chars_of(s);
    let p = chars_of(pat);
    proof {
        find_from_is_least(s@, pat@, 0);
    }
    match find_chars(&x, &p, 0) {
        Some(_) => true,
        None => {
            assert forall|i: int| !occurs_at(s@, pat@, i) by {}
            false
        },
    }
}

/// `s` begins with `pat`.
pub open spec fn begins_with(s: Seq<char>, pat: Seq<char>) -> bool {
    occurs_at(s, pat, 0)
}

/// What is left of `s` after the prefix `pat`, or `None` if it has no such
/// prefix.
pub open spec fn without_prefix(s: Seq<char>, pat: Seq<char>) -> Option<Seq<char>> {
    if begins_with(s, pat) {
        Some(s.skip(pat.len() as int))
    } else {
        None
    }
}

/// Strips the prefix `pat` from `s`.
pub fn strip_prefix(s: &str, pat: &str) -> (r: Option<String>)
    ensures
        opt_text(r) == without_prefix(s@, pat@),
{
    let x = chars_of(s);
    let p = chars_of(pat);
    if p.len() <= x.len() && stands_at(&x, &p, 0) {
        let r = string_of(&x, p.len(), x.len());
        assert(x@.subrange(p@.len() as int, x@.len() as int) =~= x@.skip(p@.len() as int));
        Some(r)
    } else {
        None
    }
}

/// `s` with every occurrence of `pat` (found from left to right, never
/// overlapping) replaced by `with`.
pub open spec fn replaced(s: Seq<char>, pat: Seq<char>, with: Seq<char>) -> Seq<char>
    decreases s.len(),
{
    match find_from(s, pat, 0) {
        Some(k) => if 0 <= k && 0 < pat.len() && k + pat.len() <= s.len() {
            s.take(k) + with + replaced(s.skip(k + pat.len()), pat, with)
        } else {
            s
        },
        None => s,
    }
}

proof fn find_from_shift(s: Seq<char>, pat: Seq<char>, d: int, i: int)
    requires
        0 <= d,
        0 <= i,
        d <= s.len(),
    ensures
        match find_from(s.skip(d), pat, i) {
            Some(k) => find_from(s, pat, d + i) == Some(d + k),
            None => find_from(s, pat, d + i) is None,
        },
    decreases s.len() + 1 - i,
{
    if i + pat.len() <= s.skip(d).len() {
        assert(s.skip(d).subrange(i, i + pat.len()) =~= s.subrange(d + i, d + i + pat.len()));
        if !occurs_at(s, pat, d + i) {
            find_from_shift(s, pat, d, i + 1);
        }
    }
}

/// Replaces every occurrence of the non-empty `pat` in `s` by `with`.
pub fn replace_all(s: &str, pat: &str, with: &str) -> (r: String)
    requires
        pat@.len() > 0,
    ensures
        r@ == replaced(s@, pat@, with@),
{
    let x = chars_of(s);
    let p = chars_of(pat);
    let mut r = String::new();
    let mut i: usize = 0;
    assert(s@.skip(0) =~= s@);
    assert(r@ + replaced(s@, pat@, with@) =~= replaced(s@, pat@, with@));
    loop
        invariant
            x@ == s@,
            p@ == pat@,
            pat@.len() > 0,
            i <= x@.len(),
            r@ + replaced(s@.skip(i as int), pat@, with@) == replaced(s@, pat@, with@),
        decreases x@.len() - i,
    {
        proof {
            find_from_shift(s@, pat@, i as int, 0);
            find_from_is_least(s@.skip(i as int), pat@, 0);
        }
        match find_chars(&x, &p, i) {
            Some(k) => {
                let ghost rest = s@.skip(i as int);
                let ghost before = r@;
                let piece = string_of(&x, i, k);
                r.append(piece.as_str());
                r.append(with);
                proof {
                    find_from_is_least(s@, pat@, i as int);
                    assert(piece@ =~= rest.take(k - i));
                    assert(rest.skip(k - i + pat@.len()) =~= s@.skip(k + pat@.len()));
                    assert(before + (rest.take(k - i) + with@ + replaced(
                        s@.skip(k + pat@.len()),
                        pat@,
                        with@,
                    )) =~= r@ + replaced(s@.skip(k + pat@.len()), pat@, with@));
                }
                i = k + p.len();
            },
            None => {
                let piece = string_of(&x, i, x.len());
                assert(piece@ =~= s@.skip(i as int));
                r.append(piece.as_str());
                return r;
            },
        }
    }
}

/// What stands before the first `c`, or all of `s` if there is none.
pub open spec fn before_first(s: Seq<char>, c: char) -> Seq<char> {
    match find_from(s, seq![c], 0) {
        Some(k) => s.take(k),
        None => s,
    }
}

/// What stands after the first `c`, if there is one.
pub open spec fn after_first(s: Seq<char>, c: char) -> Option<Seq<char>> {
    match find_from(s, seq![c], 0) {
        Some(k) => Some(s.skip(k + 1)),
        None => None,
    }
}

/// Splits `s` at the first `c`.
pub fn split_first(s: &str, c: char) -> (r: (String, Option<String>))
    ensures
        r.0@ == before_first(s@, c),
        opt_text(r.1) == after_first(s@, c),
{
    let x = chars_of(s);
    let mut p: Vec<char> = Vec::new();
    p.push(c);
    assert(p@ =~= seq![c]);
    proof {
        find_from_is_least(s@, seq![c], 0);
    }
    match find_chars(&x, &p, 0) {
        Some(k) => {
            let head = string_of(&x, 0, k);
            let tail = string_of(&x, k + 1, x.len());
            assert(head@ =~= s@.take(k as int));
            assert(tail@ =~= s@.skip(k + 1));
            (head, Some(tail))
        },
        None => {
            let head = string_of(&x, 0, x.len());
            assert(head@ =~= s@);
            (head, None)
        },
    }
}

/// The position of the last `c` before position `n`.
pub open spec fn rfind_below(s: Seq<char>, c: char, n: int) -> Option<int>
    decreases n,
{
    if n <= 0 || n > s.len() {
        None
    } else if s[n - 1] == c {
        Some(n - 1)
    } else {
        rfind_below(s, c, n - 1)
    }
}

/// The position of the last `c` in `s`.
pub open spec fn rfind(s: Seq<char>, c: char) -> Option<int> {
    rfind_below(s, c, s.len() as int)
}

/// [`rfind`] is the greatest position, and `None` means there is none.
pub proof fn rfind_is_greatest(s: Seq<char>, c: char, n: int)
    requires
        0 <= n <= s.len(),
    ensures
        match rfind_below(s, c, n) {
            Some(k) => 0 <= k < n && s[k] == c && (forall|j: int| k < j < n ==> s[j] != c),
            None => forall|j: int| 0 <= j < n ==> s[j] != c,
        },
    decreases n,
{
    if n > 0 && s[n - 1] != c {
        rfind_is_greatest(s, c, n - 1);
    }
}

/// The position of the last `c` in `s`.
pub fn find_last(s: &Vec<char>, c: char) -> (r: Option<usize>)
    ensures
        match r {
            Some(k) => rfind(s@, c) == Some(k as int) && k < s.len(),
            None => rfind(s@, c) is None,
        },
{
    let mut n: usize = s.len();
    while n > 0
        invariant
            n <= s@.len(),
            rfind(s@, c) == rfind_below(s@, c, n as int),
        decreases n,
    {
        if s[n - 1] == c {
            return Some(n - 1);
        }
        n = n - 1;
    }
    None
}

// ---------------------------------------------------------------------------
// Numbers
// ---------------------------------------------------------------------------
/// The digit character of `d`, for `d < 10`.
pub open spec fn digit_char(d: nat) -> char {
    (('0' as u32) + d) as char
}

/// The decimal numeral of `n`, without leading zeros.
pub open spec fn decimal_text(n: nat) -> Seq<char>
    decreases n,
{
    if n < 10 {
        seq![digit_char(n)]
    } else {
        decimal_text(n / 10).push(digit_char(n % 10))
    }
}

/// The decimal numeral of `n`.
pub fn decimal(n: usize) -> (r: String)
    ensures
        r@ == decimal_text(n as nat),
    decreases n,
{
    if n < 10 {
        let mut r = String::new();
        r.push((48 + n as u8) as char);
        assert(r@ =~= seq![digit_char(n as nat)]);
        r
    } else {
        let mut r = decimal(n / 10);
        r.push((48 + (n % 10) as u8) as char);
        r
    }
}

/// True if `c` is one of `0..=9`.
pub open spec fn is_digit(c: char) -> bool {
    '0' <= c && c <= '9'
}

/// The number that a run of decimal digits denotes.
pub open spec fn decimal_value(s: Seq<char>) -> nat
    decreases s.len(),
{
    if s.len() == 0 {
        0
    } else {
        decimal_value(s.drop_last()) * 10 + ((s.last() as u32) - ('0' as u32)) as nat
    }
}

/// True if every character of `s` is one of `0..=9`.
pub open spec fn all_digits(s: Seq<char>) -> bool {
    forall|i: int| 0 <= i < s.len() ==> is_digit(#[trigger] s[i])
}

/// The value of an octet in plain decimal: one to three digits without a
/// leading zero, at most 255.
pub open spec fn octet_of(s: Seq<char>) -> Option<u8> {
    if 0 < s.len() <= 3 && all_digits(s) && (s.len() > 1 ==> s[0] != '0') && decimal_value(s)
        <= 255 {
        Some(decimal_value(s) as u8)
    } else {
        None
    }
}

/// Parses an octet in plain decimal.
pub fn parse_octet(s: &str) -> (r: Option<u8>)
    ensures
        r == octet_of(s@),
{
    let x = chars_of(s);
    let n: usize = x.len();
    if n == 0 || n > 3 || (n > 1 && x[0] == '0') {
        return None;
    }
    let mut v: u32 = 0;
    let mut i: usize = 0;
    assert(s@.take(0) =~= Seq::empty());
    while i < n
        invariant
            i <= n <= 3,
            n == x@.len(),
            x@ == s@,
            forall|j: int| 0 <= j < i ==> is_digit(#[trigger] s@[j]),
            v == decimal_value(s@.take(i as int)),
            i == 0 ==> v == 0,
            i == 1 ==> v <= 9,
            i == 2 ==> v <= 99,
            i == 3 ==> v <= 999,
        decreases n - i,
    {
        let c = x[i];
        if c < '0' || c > '9' {
            assert(!is_digit(s@[i as int]));
            return None;
        }
        assert(s@.take(i + 1).drop_last() =~= s@.take(i as int));
        assert(s@.take(i + 1).last() == c);
        v = v * 10 + ((c as u32) - 48);
        i = i + 1;
    }
    assert(s@.take(i as int) =~= s@);
    if v <= 255 {
        Some(v as u8)
    } else {
        None
    }
}

/// The value of one hexadecimal digit, in either case.
pub open spec fn hex_digit(c: char) -> Option<u8> {
    let u = c as u32;
    if 0x30 <= u <= 0x39 {
        Some((u - 0x30) as u8)
    } else if 0x41 <= u <= 0x46 {
        Some((u - 0x41 + 10) as u8)
    } else if 0x61 <= u <= 0x66 {
        Some((u - 0x61 + 10) as u8)
    } else {
        None
    }
}

/// The value of the two hexadecimal digits `ab`.
pub open spec fn hex_pair(a: char, b: char) -> Option<u8> {
    match (hex_digit(a), hex_digit(b)) {
        (Some(x), Some(y)) => Some((x * 16 + y) as u8),
        _ => None,
    }
}

fn hex_value(c: char) -> (r: Option<u8>)
    ensures
        r == hex_digit(c),
        r matches Some(x) ==> x < 16,
{
    let u = c as u32;
    if 0x30 <= u && u <= 0x39 {
        Some((u - 0x30) as u8)
    } else if 0x41 <= u && u <= 0x46 {
        Some((u - 0x41 + 10) as u8)
    } else if 0x61 <= u && u <= 0x66 {
        Some((u - 0x61 + 10) as u8)
    } else {
        None
    }
}

/// Parses two hexadecimal digits.
pub fn parse_hex_pair(a: char, b: char) -> (r: Option<u8>)
    ensures
        r == hex_pair(a, b),
{
    match (hex_value(a), hex_value(b)) {
        (Some(x), Some(y)) => Some(x * 16 + y),
        _ => None,
    }
}

// ---------------------------------------------------------------------------
// Order
// ---------------------------------------------------------------------------
/// Lexicographic order by code point, which is also the order of the UTF-8
/// encodings.
pub open spec fn text_lt(a: Seq<char>, b: Seq<char>) -> bool
    decreases a.len(),
{
    if b.len() == 0 {
        false
    } else if a.len() == 0 {
        true
    } else if a[0] == b[0] {
        text_lt(a.drop_first(), b.drop_first())
    } else {
        a[0] < b[0]
    }
}

/// [`text_lt`] is irreflexive.
pub proof fn text_lt_irreflexive(a: Seq<char>)
    ensures
        !text_lt(a, a),
    decreases a.len(),
{
    if a.len() > 0 {
        text_lt_irreflexive(a.drop_first());
    }
}

/// [`text_lt`] is transitive.
pub proof fn text_lt_transitive(a: Seq<char>, b: Seq<char>, c: Seq<char>)
    requires
        text_lt(a, b),
        text_lt(b, c),
    ensures
        text_lt(a, c),
    decreases a.len(),
{
    if a.len() > 0 && a[0] == b[0] && b[0] == c[0] {
        text_lt_transitive(a.drop_first(), b.drop_first(), c.drop_first());
    }
}

/// Of two different texts one comes first.
pub proof fn text_lt_total(a: Seq<char>, b: Seq<char>)
    ensures
        a == b || text_lt(a, b) || text_lt(b, a),
    decreases a.len(),
{
    if a.len() == 0 {
        if b.len() == 0 {
            assert(a =~= b);
        }
    } else if b.len() > 0 && a[0] == b[0] {
        text_lt_total(a.drop_first(), b.drop_first());
        if a.drop_first() == b.drop_first() {
            assert(a =~= seq![a[0]] + a.drop_first());
            assert(b =~= seq![b[0]] + b.drop_first());
        }
    }
}

/// True if `a` comes before `b`.
pub fn text_less(a: &str, b: &str) -> (r: bool)
    ensures
        r == text_lt(a@, b@),
{
    let x = chars_of(a);
    let y = chars_of(b);
    let mut i: usize = 0;
    assert(x@.skip(0) =~= x@);
    assert(y@.skip(0) =~= y@);
    loop
        invariant
            x@ == a@,
            y@ == b@,
            i <= x@.len(),
            i <= y@.len(),
            text_lt(x@, y@) == text_lt(x@.skip(i as int), y@.skip(i as int)),
        decreases x@.len() - i,
    {
        if i == y.len() {
            return false;
        }
        if i == x.len() {
            return true;
        }
        if x[i] != y[i] {
            return x[i] < y[i];
        }
        assert(x@.skip(i as int).drop_first() =~= x@.skip(i + 1));
        assert(y@.skip(i as int).drop_first() =~= y@.skip(i + 1));
        i = i + 1;
    }
}

// ---------------------------------------------------------------------------
// Laws
// ---------------------------------------------------------------------------
/// Lower-casing moves the letters `A` to `Z` by thirty-two places and leaves
/// every other character, and the length, as it is.
pub proof fn only_capitals_are_lowered(s: Seq<char>, i: int)
    requires
        0 <= i < s.len(),
    ensures
        lowered(s).len() == s.len(),
        0x41 <= s[i] as u32 <= 0x5A ==> lowered(s)[i] as u32 == s[i] as u32 + 32,
        !(0x41 <= s[i] as u32 <= 0x5A) ==> lowered(s)[i] == s[i],
{
}

proof fn word_len_ends(s: Seq<char>)
    ensures
        word_len(s) <= s.len(),
        forall|i: int| 0 <= i < word_len(s) ==> !is_space(#[trigger] s[i]),
        word_len(s) < s.len() ==> is_space(s[word_len(s) as int]),
    decreases s.len(),
{
    if s.len() > 0 && !is_space(s[0]) {
        let rest = s.drop_first();
        word_len_ends(rest);
        assert forall|i: int| 0 <= i < word_len(s) implies !is_space(#[trigger] s[i]) by {
            if i > 0 {
                assert(rest[i - 1] == s[i]);
            }
        }
    }
}

/// White space parts words: the words of two texts with a space between them
/// are those of the first and then those of the second.
pub proof fn a_space_parts_words(a: Seq<char>, c: char, b: Seq<char>)
    requires
        is_space(c),
    ensures
        words_of(a + seq![c] + b) == words_of(a) + words_of(b),
    decreases a.len(),
{
    let s = a + seq![c] + b;
    let none = Seq::<Seq<char>>::empty();
    if a.len() == 0 {
        assert(s[0] == c);
        assert(s.drop_first() =~= b);
        assert(none + words_of(b) =~= words_of(b));
    } else if is_space(a[0]) {
        a_space_parts_words(a.drop_first(), c, b);
        assert(s[0] == a[0]);
        assert(s.drop_first() =~= a.drop_first() + seq![c] + b);
    } else {
        let n = word_len(a) as int;
        word_len_ends(a);
        assert(s[0] == a[0]);
        assert forall|i: int| 0 <= i < n implies !is_space(#[trigger] s[i]) by {
            assert(s[i] == a[i]);
        }
        if n < a.len() {
            assert(s[n] == a[n]);
        } else {
            assert(s[n] == c);
        }
        word_len_scan(s, n as nat);
        assert(s.take(n) =~= a.take(n));
        assert(s.skip(n) =~= a.skip(n) + seq![c] + b);
        a_space_parts_words(a.skip(n), c, b);
        let w = seq![a.take(n)];
        assert(words_of(s) == w + (words_of(a.skip(n)) + words_of(b)));
        assert(w + (words_of(a.skip(n)) + words_of(b)) =~= (w + words_of(a.skip(n))) + words_of(
            b,
        ));
    }
}

/// A text without white space is one word, and an empty one has none.
pub proof fn unbroken_text_is_one_word(w: Seq<char>)
    requires
        forall|i: int| 0 <= i < w.len() ==> !is_space(#[trigger] w[i]),
    ensures
        w.len() > 0 ==> words_of(w) == seq![w],
        w.len() == 0 ==> words_of(w).len() == 0,
{
    if w.len() > 0 {
        word_len_scan(w, w.len());
        assert(w.take(w.len() as int) =~= w);
        let rest = w.skip(w.len() as int);
        assert(words_of(rest).len() == 0);
        assert(words_of(w) == seq![w] + words_of(rest));
        assert(words_of(w) =~= seq![w]);
    }
}

/// Joining puts one space between neighbours, and nothing else.
pub proof fn joining_adds_single_spaces(v: Seq<Seq<char>>, w: Seq<char>)
    ensures
        joined(Seq::empty()) == Seq::<char>::empty(),
        joined(seq![w]) == w,
        v.len() > 0 ==> joined(v.push(w)) == joined(v) + seq![' '] + w,
{
    assert(v.push(w).drop_last() =~= v);
}

/// Words that are joined come apart again.
pub proof fn joined_words_come_apart(v: Seq<Seq<char>>)
    requires
        forall|i: int| 0 <= i < v.len() ==> (#[trigger] v[i]).len() > 0,
        forall|i: int, j: int|
            0 <= i < v.len() && 0 <= j < v[i].len() ==> !is_space(#[trigger] v[i][j]),
    ensures
        words_of(joined(v)) == v,
    decreases v.len(),
{
    if v.len() == 0 {
        assert(words_of(joined(v)) =~= v);
    } else {
        assert(v[v.len() - 1].len() > 0);
        let w = v.last();
        assert forall|i: int| 0 <= i < w.len() implies !is_space(#[trigger] w[i]) by {
            assert(w[i] == v[v.len() - 1][i]);
        }
        unbroken_text_is_one_word(w);
        if v.len() == 1 {
            assert(v =~= seq![w]);
        } else {
            let u = v.drop_last();
            assert forall|i: int| 0 <= i < u.len() implies (#[trigger] u[i]).len() > 0 by {
                assert(u[i] == v[i]);
            }
            assert forall|i: int, j: int| 0 <= i < u.len() && 0 <= j < u[i].len() implies !is_space(
                #[trigger] u[i][j],
            ) by {
                assert(u[i][j] == v[i][j]);
            }
            joined_words_come_apart(u);
            a_space_parts_words(joined(u), ' ', w);
            assert(u + seq![w] =~= v);
        }
    }
}

/// Replacing goes from left to right: what stands before the first occurrence
/// stays, the occurrence is exchanged, and the rest is treated in the same way;
/// a text without an occurrence stays as it is.
pub proof fn occurrences_are_replaced(s: Seq<char>, pat: Seq<char>, with: Seq<char>, k: int)
    requires
        pat.len() > 0,
    ensures
        (forall|i: int| !occurs_at(s, pat, i)) ==> replaced(s, pat, with) == s,
        occurs_at(s, pat, k) && (forall|i: int| 0 <= i < k ==> !occurs_at(s, pat, i)) ==> replaced(
            s,
            pat,
            with,
        ) == s.take(k) + with + replaced(s.skip(k + pat.len()), pat, with),
{
    find_from_is_least(s, pat, 0);
    if find_from(s, pat, 0) is Some {
        let j = find_from(s, pat, 0)->0;
        assert(occurs_at(s, pat, j));
    }
}

/// A text parts at the first of a character.
pub proof fn text_parts_at_the_first(a: Seq<char>, c: char, b: Seq<char>)
    requires
        forall|i: int| 0 <= i < a.len() ==> #[trigger] a[i] != c,
    ensures
        before_first(a + seq![c] + b, c) == a,
        after_first(a + seq![c] + b, c) == Some(b),
        before_first(a, c) == a,
        after_first(a, c) is None,
{
    let s = a + seq![c] + b;
    let n = a.len() as int;
    assert(s.subrange(n, n + 1) =~= seq![c]);
    assert(occurs_at(s, seq![c], n));
    find_from_is_least(s, seq![c], 0);
    assert forall|j: int| 0 <= j < n implies !occurs_at(s, seq![c], j) by {
        assert(s[j] == a[j]);
        if s.subrange(j, j + 1) == seq![c] {
            assert(s.subrange(j, j + 1)[0] == s[j]);
        }
    }
    let k = find_from(s, seq![c], 0)->0;
    assert(s.subrange(k, k + 1)[0] == s[k]);
    assert(k == n);
    assert(s.take(n) =~= a);
    assert(s.skip(n + 1) =~= b);
    find_from_is_least(a, seq![c], 0);
    if find_from(a, seq![c], 0) is Some {
        let j = find_from(a, seq![c], 0)->0;
        assert(a.subrange(j, j + 1)[0] == a[j]);
    }
}

/// A numeral reads back as its number, and has no leading zero.
pub proof fn numerals_read_back(n: nat)
    ensures
        decimal_value(decimal_text(n)) == n,
        all_digits(decimal_text(n)),
        decimal_text(n).len() > 0,
        n > 0 ==> decimal_text(n)[0] != '0',
        n < 10 ==> decimal_text(n).len() == 1,
        10 <= n < 100 ==> decimal_text(n).len() == 2,
        100 <= n < 1000 ==> decimal_text(n).len() == 3,
    decreases n,
{
    if n < 10 {
        let s = decimal_text(n);
        assert(s.drop_last() =~= Seq::<char>::empty());
        assert(decimal_value(s.drop_last()) == 0);
    } else {
        numerals_read_back(n / 10);
        let s = decimal_text(n / 10);
        let t = decimal_text(n);
        assert(t.drop_last() =~= s);
        assert forall|i: int| 0 <= i < t.len() implies is_digit(#[trigger] t[i]) by {
            if i < s.len() {
                assert(t[i] == s[i]);
            }
        }
        assert(t[0] == s[0]);
    }
}

/// Each digit counts ten times what the next one counts.
pub proof fn digits_count_by_place(s: Seq<char>, c: char)
    requires
        is_digit(c),
    ensures
        decimal_value(Seq::empty()) == 0,
        decimal_value(s.push(c)) == 10 * decimal_value(s) + (c as u32 - 0x30),
{
    assert(s.push(c).drop_last() =~= s);
}

/// The texts that are octets are exactly the numerals of the numbers up to 255.
pub proof fn octets_are_numerals(s: Seq<char>, v: u8)
    ensures
        octet_of(s) == Some(v) <==> s == decimal_text(v as nat),
{
    numerals_read_back(v as nat);
    if s == decimal_text(v as nat) {
        assert(octet_of(s) == Some(v));
    }
    if octet_of(s) == Some(v) {
        let n = s.len() as int;
        assert(is_digit(s[0]));
        assert(is_digit(s[n - 1]));
        reveal_with_fuel(decimal_value, 5);
        reveal_with_fuel(decimal_text, 4);
        if n == 1 {
            assert(s.drop_last() =~= Seq::<char>::empty());
            assert(s =~= decimal_text(v as nat));
        } else if n == 2 {
            let h = s.drop_last();
            assert(h.drop_last() =~= Seq::<char>::empty());
            assert(h.last() == s[0]);
            assert(s =~= decimal_text(v as nat));
        } else {
            assert(is_digit(s[1]));
            let h = s.drop_last();
            let g = h.drop_last();
            assert(g.drop_last() =~= Seq::<char>::empty());
            assert(h.last() == s[1] && g.last() == s[0]);
            assert(s =~= decimal_text(v as nat));
        }
    }
}

/// Hexadecimal digits are `0` to `9` and `a` to `f` in either case, and of two
/// the first counts sixteen times.
pub proof fn hexadecimal_digits(a: char, b: char)
    ensures
        0x30 <= a as u32 <= 0x39 ==> hex_digit(a) == Some((a as u32 - 0x30) as u8),
        0x61 <= a as u32 <= 0x66 ==> hex_digit(a) == Some((a as u32 - 0x57) as u8),
        0x41 <= a as u32 <= 0x46 ==> hex_digit(a) == Some((a as u32 - 0x37) as u8),
        hex_digit(a) is Some ==> 0x30 <= a as u32 <= 0x39 || 0x61 <= a as u32 <= 0x66 || 0x41
            <= a as u32 <= 0x46,
        hex_digit(a) is Some && hex_digit(b) is Some ==> (hex_pair(a, b) matches Some(v) && v == 16
            * hex_digit(a)->0 + hex_digit(b)->0),
        hex_digit(a) is None || hex_digit(b) is None ==> hex_pair(a, b) is None,
{
}

/// Texts compare at the first place where they differ; a prefix comes first.
pub proof fn first_difference_decides(a: Seq<char>, b: Seq<char>, k: int)
    requires
        0 <= k <= a.len(),
        k <= b.len(),
        forall|i: int| 0 <= i < k ==> #[trigger] a[i] == b[i],
        k == a.len() || k == b.len() || a[k] != b[k],
    ensures
        text_lt(a, b) == (k < b.len() && (k == a.len() || a[k] < b[k])),
    decreases k,
{
    if k > 0 {
        assert(a[0] == b[0]);
        let (c, d) = (a.drop_first(), b.drop_first());
        assert forall|i: int| 0 <= i < k - 1 implies #[trigger] c[i] == d[i] by {
            assert(a[i + 1] == b[i + 1]);
        }
        if k < a.len() && k < b.len() {
            assert(c[k - 1] == a[k] && d[k - 1] == b[k]);
        }
        first_difference_decides(c, d, k - 1);
    }
}

/// Of the ASCII characters the tab, the line breaks and the space are white
/// space, and no other.
pub proof fn ascii_white_space(c: char)
    requires
        (c as u32) < 0x80,
    ensures
        is_space(c) <==> c as u32 == 0x20 || 0x9 <= c as u32 <= 0xD,
{
}

/// A part of a text stands in the text.
pub proof fn parts_occur(a: Seq<char>, x: Seq<char>, b: Seq<char>)
    ensures
        occurs(a + x + b, x),
        occurs(a + x, x),
{
    let n = a.len() as int;
    assert((a + x + b).subrange(n, n + x.len()) =~= x);
    assert(occurs_at(a + x + b, x, n));
    assert((a + x).subrange(n, n + x.len()) =~= x);
    assert(occurs_at(a + x, x, n));
}

/// Beyond ASCII, white space is what Unicode gives the property to.
pub proof fn unicode_white_space(c: char)
    requires
        c as u32 >= 0x80,
    ensures
        is_space(c) <==> {
            let u = c as u32;
            u == 0x85 || u == 0xA0 || u == 0x1680 || (u >= 0x2000 && u <= 0x200A) || u == 0x2028 || u
                == 0x2029 || u == 0x202F || u == 0x205F || u == 0x3000
        },
{
}

} // verus!
