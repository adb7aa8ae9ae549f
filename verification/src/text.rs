//! Strings as sequences of characters: equality, order, prefixes, lines and
//! joining.
use vstd::prelude::*;
use vstd::utf8::*;
use vstd::relations::*;

verus! {

/// The texts held by a sequence of strings.
pub open spec fn views(s: Seq<String>) -> Seq<Seq<char>> {
    s.map_values(|t: String| t@)
}

/// The text of an optional string.
pub open spec fn opt_view(o: Option<String>) -> Option<Seq<char>> {
    match o {
        Some(s) => Some(s@),
        None => None,
    }
}

/// The text of an optional string slice.
pub open spec fn opt_str_view(o: Option<&str>) -> Option<Seq<char>> {
    match o {
        Some(s) => Some(s@),
        None => None,
    }
}

/// Two texts with the same UTF-8 encoding are the same text.
pub proof fn lemma_encode_injective(a: Seq<char>, b: Seq<char>)
    requires
        encode_utf8(a) == encode_utf8(b),
    ensures
        a == b,
{
    encode_utf8_decode_utf8(a);
    encode_utf8_decode_utf8(b);
}

/// Whether two strings hold the same text.
pub fn str_eq(a: &str, b: &str) -> (r: bool)
    ensures
        r == (a@ == b@),
{
    let x = a.as_bytes();
    let y = b.as_bytes();
    if x.len() != y.len() {
        return false;
    }
    let n: usize = x.len();
    let mut i: usize = 0;
    while i < n
        invariant
            i <= n,
            n == x@.len(),
            n == y@.len(),
            x@ == encode_utf8(a@),
            y@ == encode_utf8(b@),
            forall|j: int| 0 <= j < i ==> x@[j] == y@[j],
        decreases n - i,
    {
        if x[i] != y[i] {
            return false;
        }
        i = i + 1;
    }
    proof {
        assert(x@ =~= y@);
        lemma_encode_injective(a@, b@);
    }
    true
}

/// Lexicographic order of byte sequences.
pub open spec fn bytes_le(a: Seq<u8>, b: Seq<u8>) -> bool
    decreases a.len(),
{
    if a.len() == 0 {
        true
    } else if b.len() == 0 {
        false
    } else {
        a[0] < b[0] || (a[0] == b[0] && bytes_le(a.drop_first(), b.drop_first()))
    }
}

/// The order of strings: lexicographic by the bytes of their UTF-8 encoding.
pub open spec fn text_le(a: Seq<char>, b: Seq<char>) -> bool {
    bytes_le(encode_utf8(a), encode_utf8(b))
}

/// `text_le` as a relation.
pub open spec fn text_order() -> spec_fn(Seq<char>, Seq<char>) -> bool {
    |a: Seq<char>, b: Seq<char>| text_le(a, b)
}

proof fn lemma_bytes_le_reflexive(a: Seq<u8>)
    ensures
        bytes_le(a, a),
    decreases a.len(),
{
    if a.len() > 0 {
        lemma_bytes_le_reflexive(a.drop_first());
    }
}

proof fn lemma_bytes_le_antisymmetric(a: Seq<u8>, b: Seq<u8>)
    requires
        bytes_le(a, b),
        bytes_le(b, a),
    ensures
        a == b,
    decreases a.len(),
{
    if a.len() > 0 {
        lemma_bytes_le_antisymmetric(a.drop_first(), b.drop_first());
        assert(a =~= seq![a[0]] + a.drop_first());
        assert(b =~= seq![b[0]] + b.drop_first());
    } else {
        assert(a =~= b);
    }
}

proof fn lemma_bytes_le_transitive(a: Seq<u8>, b: Seq<u8>, c: Seq<u8>)
    requires
        bytes_le(a, b),
        bytes_le(b, c),
    ensures
        bytes_le(a, c),
    decreases a.len(),
{
    if a.len() > 0 && a[0] == b[0] && b[0] == c[0] {
        lemma_bytes_le_transitive(a.drop_first(), b.drop_first(), c.drop_first());
    }
}

proof fn lemma_bytes_le_total(a: Seq<u8>, b: Seq<u8>)
    ensures
        bytes_le(a, b) || bytes_le(b, a),
    decreases a.len(),
{
    if a.len() > 0 && b.len() > 0 {
        lemma_bytes_le_total(a.drop_first(), b.drop_first());
    }
}

/// The order of strings is total.
pub proof fn lemma_text_order()
    ensures
        total_ordering(text_order()),
{
    let le = text_order();
    assert forall|a: Seq<char>| #[trigger] le(a, a) by {
        lemma_bytes_le_reflexive(encode_utf8(a));
    }
    assert forall|a: Seq<char>, b: Seq<char>| #[trigger] le(a, b) && #[trigger] le(b, a) implies a
        == b by {
        lemma_bytes_le_antisymmetric(encode_utf8(a), encode_utf8(b));
        lemma_encode_injective(a, b);
    }
    assert forall|a: Seq<char>, b: Seq<char>, c: Seq<char>| #[trigger]
        le(a, b) && #[trigger] le(b, c) implies le(a, c) by {
        lemma_bytes_le_transitive(encode_utf8(a), encode_utf8(b), encode_utf8(c));
    }
    assert forall|a: Seq<char>, b: Seq<char>| #[trigger] le(a, b) || #[trigger] le(b, a) by {
        lemma_bytes_le_total(encode_utf8(a), encode_utf8(b));
    }
}

/// Whether `a` comes before `b` or equals it in the order of strings.
pub fn str_le(a: &str, b: &str) -> (r: bool)
    ensures
        r == text_le(a@, b@),
{
    let x = a.as_bytes();
    let y = b.as_bytes();
    let mut i: usize = 0;
    proof {
        assert(x@.skip(0) =~= x@);
        assert(y@.skip(0) =~= y@);
    }
    while i < x.len() && i < y.len()
        invariant
            i <= x@.len(),
            i <= y@.len(),
            text_le(a@, b@) == bytes_le(x@.skip(i as int), y@.skip(i as int)),
        decreases x@.len() - i,
    {
        if x[i] < y[i] {
            return true;
        }
        if y[i] < x[i] {
            return false;
        }
        proof {
            assert(x@.skip(i as int).drop_first() =~= x@.skip(i + 1));
            assert(y@.skip(i as int).drop_first() =~= y@.skip(i + 1));
        }
        i = i + 1;
    }
    i == x.len()
}

/// The strings of `s` in order, repetitions kept.
pub open spec fn sorted_texts(s: Seq<Seq<char>>) -> Seq<Seq<char>> {
    s.sort_by(text_order())
}

/// Puts the strings of `names` in order, repetitions kept.
pub fn sort_names(names: &Vec<String>) -> (r: Vec<String>)
    ensures
        views(r@) == sorted_texts(views(names@)),
{
    let mut out: Vec<String> = Vec::new();
    let mut i: usize = 0;
    proof {
        lemma_text_order();
        assert(views(out@) =~= views(names@).take(0));
    }
    while i < names.len()
        invariant
            i <= names@.len(),
            total_ordering(text_order()),
            sorted_by(views(out@), text_order()),
            views(out@).to_multiset() == views(names@).take(i as int).to_multiset(),
        decreases names@.len() - i,
    {
        let mut p: usize = 0;
        while p < out.len() && str_le(out[p].as_str(), names[i].as_str())
            invariant
                i < names@.len(),
                p <= out@.len(),
                forall|j: int| 0 <= j < p ==> text_le(#[trigger] views(out@)[j], names@[i as int]@),
            ensures
                p <= out@.len(),
                forall|j: int| 0 <= j < p ==> text_le(#[trigger] views(out@)[j], names@[i as int]@),
                p < out@.len() ==> !text_le(views(out@)[p as int], names@[i as int]@),
            decreases out@.len() - p,
        {
            p = p + 1;
        }
        let ghost before = views(out@);
        let ghost x = names@[i as int]@;
        out.insert(p, names[i].clone());
        proof {
            let le = text_order();
            assert(views(out@) =~= before.insert(p as int, x));
            assert(views(out@).to_multiset() =~= before.to_multiset().insert(x)) by {
                broadcast use vstd::multiset::group_multiset_axioms;

                views(out@).to_multiset_ensures();
                assert(views(out@).remove(p as int) =~= before);
                assert(views(out@)[p as int] == x);
                assert(views(out@).contains(x));
            }
            assert forall|a: int, b: int| 0 <= a < b < views(out@).len() implies #[trigger] le(
                views(out@)[a],
                views(out@)[b],
            ) by {
                if a < p && b > p {
                    assert(le(before[a], before[b - 1]));
                } else if a < p && b == p {
                    assert(text_le(before[a], x));
                } else if a < p {
                    assert(le(before[a], before[b]));
                } else if a == p {
                    assert(le(x, before[p as int]) || le(before[p as int], x));
                    if b > p + 1 {
                        assert(le(before[p as int], before[b - 1]));
                    }
                } else {
                    assert(le(before[a - 1], before[b - 1]));
                }
            }
            let prefix = views(names@).take(i as int);
            assert(views(names@).take(i + 1) =~= prefix.push(x));
            prefix.to_multiset_ensures();
        }
        i = i + 1;
    }
    proof {
        assert(views(names@).take(names@.len() as int) =~= views(names@));
        views(names@).lemma_sort_by_ensures(text_order());
        vstd::seq_lib::lemma_sorted_unique(
            views(out@),
            sorted_texts(views(names@)),
            text_order(),
        );
    }
    out
}

/// What follows `prefix` in `text`, where `text` starts with it.
pub fn strip_prefix<'a>(text: &'a str, prefix: &str) -> (r: Option<&'a str>)
    ensures
        match r {
            Some(rest) => text@ == prefix@ + rest@,
            None => !prefix@.is_prefix_of(text@),
        },
{
    let n: usize = prefix.unicode_len();
    let m: usize = text.unicode_len();
    if m < n {
        return None;
    }
    if str_eq(text.substring_char(0, n), prefix) {
        let rest = text.substring_char(n, m);
        proof {
            assert(text@ =~= prefix@ + rest@);
        }
        Some(rest)
    } else {
        None
    }
}

/// The characters of `text`.
pub fn chars_of(text: &str) -> (r: Vec<char>)
    ensures
        r@ == text@,
{
    let mut out: Vec<char> = Vec::new();
    for c in it: text.chars()
        invariant
            it.seq() == text@,
            out@ == text@.take(it.index() as int),
    {
        proof {
            assert(text@.take(it.index() + 1) =~= text@.take(it.index() as int).push(c));
        }
        out.push(c);
    }
    proof {
        assert(text@.take(text@.len() as int) =~= text@);
    }
    out
}

/// The character in lower case, where it is an ASCII letter.
pub open spec fn ascii_lower(c: char) -> char {
    if 'A' <= c <= 'Z' {
        (c as u32 + 32) as char
    } else {
        c
    }
}

/// Whether two texts are the same but for the case of ASCII letters.
pub open spec fn same_ignoring_ascii_case(a: Seq<char>, b: Seq<char>) -> bool {
    a.len() == b.len() && forall|i: int|
        0 <= i < a.len() ==> ascii_lower(#[trigger] a[i]) == ascii_lower(b[i])
}

/// The character in lower case, where it is an ASCII letter.
fn to_ascii_lower(c: char) -> (r: char)
    ensures
        r == ascii_lower(c),
{
    if 'A' <= c && c <= 'Z' {
        (c as u8 + 32) as char
    } else {
        c
    }
}

/// Whether two texts are the same but for the case of ASCII letters.
pub fn eq_ignore_ascii_case(a: &str, b: &str) -> (r: bool)
    ensures
        r == same_ignoring_ascii_case(a@, b@),
{
    let x = chars_of(a);
    let y = chars_of(b);
    if x.len() != y.len() {
        return false;
    }
    let mut i: usize = 0;
    while i < x.len()
        invariant
            i <= x@.len(),
            x@ == a@,
            y@ == b@,
            x@.len() == y@.len(),
            forall|j: int| 0 <= j < i ==> ascii_lower(#[trigger] a@[j]) == ascii_lower(b@[j]),
        decreases x@.len() - i,
    {
        if to_ascii_lower(x[i]) != to_ascii_lower(y[i]) {
            return false;
        }
        i = i + 1;
    }
    true
}

/// Whether `c` has the Unicode property `White_Space`.
pub open spec fn is_white_space(c: char) -> bool {
    ||| '\u{9}' <= c <= '\u{d}'
    ||| c == '\u{20}'
    ||| c == '\u{85}'
    ||| c == '\u{a0}'
    ||| c == '\u{1680}'
    ||| '\u{2000}' <= c <= '\u{200a}'
    ||| c == '\u{2028}'
    ||| c == '\u{2029}'
    ||| c == '\u{202f}'
    ||| c == '\u{205f}'
    ||| c == '\u{3000}'
}

/// Whether `c` has the Unicode property `White_Space`.
pub fn white_space(c: char) -> (r: bool)
    ensures
        r == is_white_space(c),
{
    ('\u{9}' <= c && c <= '\u{d}') || c == '\u{20}' || c == '\u{85}' || c == '\u{a0}' || c
        == '\u{1680}' || ('\u{2000}' <= c && c <= '\u{200a}') || c == '\u{2028}' || c == '\u{2029}'
        || c == '\u{202f}' || c == '\u{205f}' || c == '\u{3000}'
}

/// The text without white space at its start.
pub open spec fn trim_start(s: Seq<char>) -> Seq<char>
    decreases s.len(),
{
    if s.len() > 0 && is_white_space(s[0]) {
        trim_start(s.drop_first())
    } else {
        s
    }
}

/// The text without white space at its end.
pub open spec fn trim_end(s: Seq<char>) -> Seq<char>
    decreases s.len(),
{
    if s.len() > 0 && is_white_space(s.last()) {
        trim_end(s.drop_last())
    } else {
        s
    }
}

/// The text without white space at either end.
pub open spec fn trim(s: Seq<char>) -> Seq<char> {
    trim_end(trim_start(s))
}

/// The bounds of what `trim` leaves of `chars[start..end]`.
pub fn trim_range(chars: &Vec<char>, start: usize, end: usize) -> (r: (usize, usize))
    requires
        start <= end <= chars@.len(),
    ensures
        start <= r.0 <= r.1 <= end,
        chars@.subrange(r.0 as int, r.1 as int) == trim(chars@.subrange(start as int, end as int)),
{
    let mut a: usize = start;
    while a < end && white_space(chars[a])
        invariant
            start <= a <= end <= chars@.len(),
            trim_start(chars@.subrange(a as int, end as int)) == trim_start(
                chars@.subrange(start as int, end as int),
            ),
        ensures
            start <= a <= end <= chars@.len(),
            trim_start(chars@.subrange(a as int, end as int)) == trim_start(
                chars@.subrange(start as int, end as int),
            ),
            a < end ==> !is_white_space(chars@[a as int]),
        decreases end - a,
    {
        proof {
            assert(chars@.subrange(a as int, end as int).drop_first() =~= chars@.subrange(
                a + 1,
                end as int,
            ));
        }
        a = a + 1;
    }
    let ghost left = chars@.subrange(a as int, end as int);
    let mut b: usize = end;
    while a < b && white_space(chars[b - 1])
        invariant
            start <= a <= b <= end <= chars@.len(),
            trim_end(chars@.subrange(a as int, b as int)) == trim_end(left),
        ensures
            start <= a <= b <= end <= chars@.len(),
            trim_end(chars@.subrange(a as int, b as int)) == trim_end(left),
            a < b ==> !is_white_space(chars@[b - 1]),
        decreases b - a,
    {
        proof {
            assert(chars@.subrange(a as int, b as int).drop_last() =~= chars@.subrange(
                a as int,
                b - 1,
            ));
        }
        b = b - 1;
    }
    (a, b)
}

/// The position of the first line feed, or the length where there is none.
pub open spec fn first_newline(t: Seq<char>) -> nat
    decreases t.len(),
{
    if t.len() == 0 || t[0] == '\n' {
        0
    } else {
        1 + first_newline(t.drop_first())
    }
}

/// A line without the carriage return that belongs to its end.
pub open spec fn without_return(line: Seq<char>) -> Seq<char> {
    if line.len() > 0 && line.last() == '\r' {
        line.drop_last()
    } else {
        line
    }
}

/// The lines of a text. A line ends with a line feed, or a carriage return and
/// a line feed, which are not part of it; the last line need not.
pub open spec fn lines(t: Seq<char>) -> Seq<Seq<char>>
    decreases t.len(),
{
    if t.len() == 0 {
        Seq::empty()
    } else {
        let k = first_newline(t);
        if k >= t.len() {
            seq![t]
        } else {
            seq![without_return(t.take(k as int))] + lines(t.skip(k + 1int))
        }
    }
}

/// The position of the first line feed in `chars` from `from` on, or the
/// length where there is none.
pub fn find_newline(chars: &Vec<char>, from: usize) -> (r: usize)
    requires
        from <= chars@.len(),
    ensures
        from <= r <= chars@.len(),
        r - from == first_newline(chars@.skip(from as int)),
        r < chars@.len() ==> chars@[r as int] == '\n',
{
    let mut i: usize = from;
    while i < chars.len() && chars[i] != '\n'
        invariant
            from <= i <= chars@.len(),
            first_newline(chars@.skip(from as int)) == (i - from) + first_newline(
                chars@.skip(i as int),
            ),
        ensures
            from <= i <= chars@.len(),
            first_newline(chars@.skip(from as int)) == (i - from) + first_newline(
                chars@.skip(i as int),
            ),
            i < chars@.len() ==> chars@[i as int] == '\n',
        decreases chars@.len() - i,
    {
        proof {
            assert(chars@.skip(i as int).drop_first() =~= chars@.skip(i + 1));
        }
        i = i + 1;
    }
    i
}

/// A filtered sequence holds the elements that pass.
pub proof fn lemma_filter_membership(
    s: Seq<Seq<char>>,
    p: spec_fn(Seq<char>) -> bool,
    x: Seq<char>,
)
    ensures
        s.filter(p).contains(x) <==> s.contains(x) && p(x),
    decreases s.len(),
{
    reveal_with_fuel(Seq::filter, 2);
    if s.len() > 0 {
        let rest = s.drop_last();
        lemma_filter_membership(rest, p, x);
        assert(s =~= rest.push(s.last()));
        assert(s.contains(x) <==> rest.contains(x) || s.last() == x) by {
            if s.contains(x) && s.last() != x {
                assert(rest[s.index_of(x)] == x);
            }
            if rest.contains(x) {
                assert(s[rest.index_of(x)] == x);
            }
            if s.last() == x {
                assert(s[s.len() - 1] == x);
            }
        }
        if p(s.last()) {
            let f = rest.filter(p);
            assert(s.filter(p) =~= f.push(s.last()));
            if f.contains(x) {
                assert(f.push(s.last())[f.index_of(x)] == x);
            }
            if s.last() == x {
                assert(f.push(s.last())[f.len() as int] == x);
            }
            if f.push(s.last()).contains(x) && s.last() != x {
                assert(f[f.push(s.last()).index_of(x)] == x);
            }
        }
    }
}

/// A filter that every element passes changes nothing.
pub proof fn lemma_filter_all(s: Seq<Seq<char>>, p: spec_fn(Seq<char>) -> bool)
    requires
        forall|x: Seq<char>| #[trigger] s.contains(x) ==> p(x),
    ensures
        s.filter(p) == s,
    decreases s.len(),
{
    reveal_with_fuel(Seq::filter, 2);
    if s.len() > 0 {
        let rest = s.drop_last();
        assert(s[s.len() - 1] == s.last());
        assert(s.contains(s.last()));
        assert forall|x: Seq<char>| #[trigger] rest.contains(x) implies p(x) by {
            assert(s[rest.index_of(x)] == x);
            assert(s.contains(x));
        }
        lemma_filter_all(rest, p);
        assert(s =~= rest.push(s.last()));
    } else {
        assert(s.filter(p) =~= s);
    }
}

/// A filter that no element passes leaves nothing.
pub proof fn lemma_filter_none(s: Seq<Seq<char>>, p: spec_fn(Seq<char>) -> bool)
    requires
        forall|x: Seq<char>| #[trigger] s.contains(x) ==> !p(x),
    ensures
        s.filter(p) == Seq::<Seq<char>>::empty(),
{
    assert forall|x: Seq<char>| !(#[trigger] s.filter(p).contains(x)) by {
        lemma_filter_membership(s, p, x);
    }
    if s.filter(p).len() > 0 {
        assert(s.filter(p).contains(s.filter(p)[0]));
    }
    assert(s.filter(p) =~= Seq::empty());
}

/// A filter and its opposite part the elements.
pub proof fn lemma_filter_partition(
    s: Seq<Seq<char>>,
    p: spec_fn(Seq<char>) -> bool,
    q: spec_fn(Seq<char>) -> bool,
)
    requires
        forall|x: Seq<char>| #[trigger] p(x) == !q(x),
    ensures
        s.to_multiset() == s.filter(p).to_multiset().add(s.filter(q).to_multiset()),
    decreases s.len(),
{
    broadcast use vstd::multiset::group_multiset_axioms;

    reveal_with_fuel(Seq::filter, 2);
    s.to_multiset_ensures();
    s.filter(p).to_multiset_ensures();
    s.filter(q).to_multiset_ensures();
    if s.len() > 0 {
        let rest = s.drop_last();
        lemma_filter_partition(rest, p, q);
        assert(s =~= rest.push(s.last()));
        rest.to_multiset_ensures();
        rest.filter(p).to_multiset_ensures();
        rest.filter(q).to_multiset_ensures();
        assert(p(s.last()) == !q(s.last()));
        assert(s.to_multiset() =~= s.filter(p).to_multiset().add(s.filter(q).to_multiset()));
    } else {
        assert(s.to_multiset() =~= s.filter(p).to_multiset().add(s.filter(q).to_multiset()));
    }
}

/// A copy of the names.
pub fn clone_names(names: &Vec<String>) -> (r: Vec<String>)
    ensures
        views(r@) == views(names@),
{
    let mut out: Vec<String> = Vec::new();
    let mut i: usize = 0;
    while i < names.len()
        invariant
            i <= names@.len(),
            out@.len() == i,
            forall|j: int| 0 <= j < i ==> (#[trigger] out@[j])@ == names@[j]@,
        decreases names@.len() - i,
    {
        out.push(names[i].clone());
        i = i + 1;
    }
    proof {
        assert(views(out@) =~= views(names@));
    }
    out
}

/// Two sequences that agree up to a separator that does not occur before it
/// agree before and behind it.
pub proof fn lemma_split_at_separator<T>(a: Seq<T>, b: Seq<T>, x: Seq<T>, y: Seq<T>, sep: T)
    requires
        !a.contains(sep),
        !b.contains(sep),
        a + seq![sep] + x == b + seq![sep] + y,
    ensures
        a == b,
        x == y,
{
    let left = a + seq![sep] + x;
    let right = b + seq![sep] + y;
    assert(left[a.len() as int] == sep);
    assert(right[b.len() as int] == sep);
    if a.len() < b.len() {
        assert(right[a.len() as int] == b[a.len() as int]);
    }
    if b.len() < a.len() {
        assert(left[b.len() as int] == a[b.len() as int]);
    }
    assert forall|i: int| 0 <= i < a.len() implies a[i] == b[i] by {
        assert(left[i] == a[i]);
        assert(right[i] == b[i]);
    }
    assert(a =~= b);
    assert(x =~= left.skip(a.len() + 1int));
    assert(y =~= right.skip(b.len() + 1int));
}

/// Two sequences that agree, with a separator that does not occur behind its
/// place, agree before and behind it.
pub proof fn lemma_split_at_last_separator<T>(x: Seq<T>, y: Seq<T>, a: Seq<T>, b: Seq<T>, sep: T)
    requires
        !a.contains(sep),
        !b.contains(sep),
        x + seq![sep] + a == y + seq![sep] + b,
    ensures
        x == y,
        a == b,
{
    let left = x + seq![sep] + a;
    let right = y + seq![sep] + b;
    assert(left.len() == x.len() + 1 + a.len());
    assert(right.len() == y.len() + 1 + b.len());
    assert(left[x.len() as int] == sep);
    assert(right[y.len() as int] == sep);
    if x.len() < y.len() {
        assert(left[y.len() as int] == a[y.len() - x.len() - 1]);
    }
    if y.len() < x.len() {
        assert(right[x.len() as int] == b[x.len() - y.len() - 1]);
    }
    assert(x =~= left.take(x.len() as int));
    assert(y =~= right.take(y.len() as int));
    assert(a =~= left.skip(x.len() + 1int));
    assert(b =~= right.skip(y.len() + 1int));
}

/// What follows the same start is the same.
pub proof fn lemma_cancel_start<T>(c: Seq<T>, x: Seq<T>, y: Seq<T>)
    requires
        c + x == c + y,
    ensures
        x == y,
{
    assert(x =~= (c + x).skip(c.len() as int));
    assert(y =~= (c + y).skip(c.len() as int));
}

/// What precedes the same end is the same.
pub proof fn lemma_cancel_end<T>(x: Seq<T>, y: Seq<T>, c: Seq<T>)
    requires
        x + c == y + c,
    ensures
        x == y,
{
    assert((x + c).len() == x.len() + c.len());
    assert((y + c).len() == y.len() + c.len());
    assert(x =~= (x + c).take(x.len() as int));
    assert(y =~= (y + c).take(y.len() as int));
}

/// The encoding of a text without NUL has no zero byte.
pub proof fn lemma_encode_without_nul(s: Seq<char>)
    requires
        !s.contains('\0'),
    ensures
        !encode_utf8(s).contains(0u8),
    decreases s.len(),
{
    if s.len() > 0 {
        let rest = s.drop_first();
        let c = s[0] as u32;
        let head = encode_scalar(c);
        assert(s.contains(s[0]));
        char_is_scalar(s[0]);
        char_u32_cast(s[0], c);
        assert(c != 0) by {
            if c == 0 {
                assert(0u32 as char == '\0');
            }
        }
        assert forall|x: char| #[trigger] rest.contains(x) implies s.contains(x) by {
            assert(s[rest.index_of(x) + 1] == x);
        }
        lemma_encode_without_nul(rest);
        lemma_scalar_without_zero(c);
        assert forall|i: int| 0 <= i < encode_utf8(s).len() implies encode_utf8(s)[i] != 0u8 by {
            if i < head.len() {
                assert(encode_utf8(s)[i] == head[i]);
            } else {
                assert(encode_utf8(s)[i] == encode_utf8(rest)[i - head.len()]);
                assert(encode_utf8(rest).contains(encode_utf8(rest)[i - head.len()]));
            }
        }
    }
}

proof fn lemma_scalar_without_zero(c: u32)
    requires
        is_scalar(c),
        c != 0,
    ensures
        forall|i: int| 0 <= i < encode_scalar(c).len() ==> #[trigger] encode_scalar(c)[i] != 0u8,
{
    if has_width_1_encoding(c) {
        assert(c != 0 && c <= 0x7f ==> leading_byte_width_1(c) != 0u8) by (bit_vector);
    } else {
        assert(last_continuation_byte(c) != 0u8) by (bit_vector);
        assert(second_last_continuation_byte(c) != 0u8) by (bit_vector);
        assert(third_last_continuation_byte(c) != 0u8) by (bit_vector);
        assert(leading_byte_width_2(c) != 0u8) by (bit_vector);
        assert(leading_byte_width_3(c) != 0u8) by (bit_vector);
        assert(leading_byte_width_4(c) != 0u8) by (bit_vector);
    }
}

/// `pieces` with `sep` between them.
pub open spec fn joined(pieces: Seq<Seq<char>>, sep: Seq<char>) -> Seq<char>
    decreases pieces.len(),
{
    if pieces.len() == 0 {
        Seq::empty()
    } else if pieces.len() == 1 {
        pieces[0]
    } else {
        joined(pieces.drop_last(), sep) + sep + pieces.last()
    }
}

/// Whether none of `pieces` holds `c`.
pub open spec fn none_holds(pieces: Seq<Seq<char>>, c: char) -> bool {
    forall|i: int| 0 <= i < pieces.len() ==> !(#[trigger] pieces[i]).contains(c)
}

proof fn lemma_none_holds(pieces: Seq<Seq<char>>, c: char)
    requires
        none_holds(pieces, c),
        pieces.len() > 0,
    ensures
        none_holds(pieces.drop_last(), c),
        !pieces.last().contains(c),
{
    assert(pieces.last() == pieces[pieces.len() - 1]);
    assert forall|i: int| 0 <= i < pieces.drop_last().len() implies !(
    #[trigger] pieces.drop_last()[i]).contains(c) by {
        assert(pieces.drop_last()[i] == pieces[i]);
    }
}

proof fn lemma_joined_shows_separator(pieces: Seq<Seq<char>>, sep: char)
    requires
        pieces.len() > 1,
    ensures
        joined(pieces, seq![sep]).contains(sep),
{
    let head = joined(pieces.drop_last(), seq![sep]);
    assert(joined(pieces, seq![sep])[head.len() as int] == sep);
}

/// Lists that are not empty and hold no separator are the same where they read
/// the same when joined.
pub proof fn lemma_joined_injective(a: Seq<Seq<char>>, b: Seq<Seq<char>>, sep: char)
    requires
        a.len() > 0,
        b.len() > 0,
        none_holds(a, sep),
        none_holds(b, sep),
        joined(a, seq![sep]) == joined(b, seq![sep]),
    ensures
        a == b,
    decreases a.len(),
{
    lemma_none_holds(a, sep);
    lemma_none_holds(b, sep);
    if a.len() == 1 && b.len() == 1 {
        assert(a =~= b);
    } else if a.len() == 1 {
        lemma_joined_shows_separator(b, sep);
        assert(!a[0].contains(sep));
    } else if b.len() == 1 {
        lemma_joined_shows_separator(a, sep);
        assert(!b[0].contains(sep));
    } else {
        lemma_split_at_last_separator(
            joined(a.drop_last(), seq![sep]),
            joined(b.drop_last(), seq![sep]),
            a.last(),
            b.last(),
            sep,
        );
        lemma_joined_injective(a.drop_last(), b.drop_last(), sep);
        assert(a =~= a.drop_last().push(a.last()));
        assert(b =~= b.drop_last().push(b.last()));
    }
}

/// Joined, a list with a last piece that is not empty is not empty.
pub proof fn lemma_joined_not_empty(pieces: Seq<Seq<char>>, sep: Seq<char>)
    requires
        pieces.len() > 0,
        pieces.last().len() > 0,
    ensures
        joined(pieces, sep).len() > 0,
{
}

/// White space at the start does not count for `trim_start`.
pub proof fn lemma_trim_start(space: Seq<char>, s: Seq<char>)
    requires
        forall|i: int| 0 <= i < space.len() ==> is_white_space(#[trigger] space[i]),
        s.len() > 0,
        !is_white_space(s[0]),
    ensures
        trim_start(space + s) == s,
    decreases space.len(),
{
    if space.len() == 0 {
        assert(space + s =~= s);
    } else {
        let rest = space.drop_first();
        assert forall|i: int| 0 <= i < rest.len() implies is_white_space(#[trigger] rest[i]) by {
            assert(rest[i] == space[i + 1]);
        }
        lemma_trim_start(rest, s);
        assert((space + s)[0] == space[0]);
        assert((space + s).drop_first() =~= rest + s);
    }
}

/// White space at the end does not count for `trim_end`.
pub proof fn lemma_trim_end(s: Seq<char>, space: Seq<char>)
    requires
        forall|i: int| 0 <= i < space.len() ==> is_white_space(#[trigger] space[i]),
        s.len() > 0,
        !is_white_space(s.last()),
    ensures
        trim_end(s + space) == s,
    decreases space.len(),
{
    if space.len() == 0 {
        assert(s + space =~= s);
    } else {
        let rest = space.drop_last();
        assert forall|i: int| 0 <= i < rest.len() implies is_white_space(#[trigger] rest[i]) by {
            assert(rest[i] == space[i]);
        }
        lemma_trim_end(s, rest);
        assert((s + space).last() == space[space.len() - 1]);
        assert((s + space).drop_last() =~= s + rest);
    }
}

/// The texts of a sequence of strings are those of its strings, one by one.
pub proof fn law_views_show_every_string(s: Seq<String>)
    ensures
        views(s).len() == s.len(),
        forall|i: int| 0 <= i < s.len() ==> #[trigger] views(s)[i] == s[i]@,
{
}

/// The text of an optional string is the text of the string.
pub proof fn law_optional_texts(o: Option<String>, p: Option<&str>)
    ensures
        opt_view(o) is Some <==> o is Some,
        o is Some ==> opt_view(o) == Some(o->0@),
        opt_str_view(p) is Some <==> p is Some,
        p is Some ==> opt_str_view(p) == Some(p->0@),
{
}

proof fn lemma_bytes_le_prefix(a: Seq<u8>, b: Seq<u8>)
    ensures
        bytes_le(a, a + b),
    decreases a.len(),
{
    if a.len() > 0 {
        lemma_bytes_le_prefix(a.drop_first(), b);
        assert((a + b).drop_first() =~= a.drop_first() + b);
        assert((a + b)[0] == a[0]);
    }
}

proof fn lemma_bytes_le_at(a: Seq<u8>, b: Seq<u8>, k: int)
    requires
        0 <= k < a.len(),
        k < b.len(),
        forall|i: int| 0 <= i < k ==> a[i] == b[i],
        a[k] != b[k],
    ensures
        bytes_le(a, b) <==> a[k] < b[k],
    decreases k,
{
    if k > 0 {
        let x = a.drop_first();
        let y = b.drop_first();
        assert forall|i: int| 0 <= i < k - 1 implies x[i] == y[i] by {
            assert(x[i] == a[i + 1] && y[i] == b[i + 1]);
        }
        lemma_bytes_le_at(x, y, k - 1);
        assert(a[0] == b[0]);
    }
}

/// Strings are ordered by the first byte of their encodings that differs, and a
/// string comes before every string that it starts.
pub proof fn law_order_of_strings(a: Seq<char>, b: Seq<char>, k: int)
    ensures
        encode_utf8(a).is_prefix_of(encode_utf8(b)) ==> text_le(a, b),
        0 <= k < encode_utf8(a).len() && k < encode_utf8(b).len() && encode_utf8(a).take(k)
            == encode_utf8(b).take(k) && encode_utf8(a)[k] != encode_utf8(b)[k] ==> (text_le(a, b)
            <==> encode_utf8(a)[k] < encode_utf8(b)[k]),
        text_le(a, b) && text_le(b, a) <==> a == b,
        text_le(a, b) || text_le(b, a),
{
    let x = encode_utf8(a);
    let y = encode_utf8(b);
    if x.is_prefix_of(y) {
        lemma_bytes_le_prefix(x, y.skip(x.len() as int));
        assert(x + y.skip(x.len() as int) =~= y);
    }
    if 0 <= k < x.len() && k < y.len() && x.take(k) == y.take(k) && x[k] != y[k] {
        assert forall|i: int| 0 <= i < k implies x[i] == y[i] by {
            assert(x.take(k)[i] == y.take(k)[i]);
        }
        lemma_bytes_le_at(x, y, k);
    }
    lemma_text_order();
    let le = text_order();
    assert(le(a, b) || le(b, a));
    assert(le(a, a));
    if text_le(a, b) && text_le(b, a) {
        assert(le(a, b) && le(b, a));
    }
}

/// Sorting keeps every string as often as it occurs, and puts each before those
/// that are not before it in the order of strings.
pub proof fn law_sorting_orders_and_keeps(s: Seq<Seq<char>>)
    ensures
        sorted_texts(s).to_multiset() == s.to_multiset(),
        forall|i: int, j: int|
            0 <= i < j < sorted_texts(s).len() ==> text_le(
                #[trigger] sorted_texts(s)[i],
                #[trigger] sorted_texts(s)[j],
            ),
{
    lemma_text_order();
    s.lemma_sort_by_ensures(text_order());
    let t = sorted_texts(s);
    let le = text_order();
    assert forall|i: int, j: int| 0 <= i < j < t.len() implies text_le(
        #[trigger] t[i],
        #[trigger] t[j],
    ) by {
        assert(le(t[i], t[j]));
    }
}

/// Two texts are the same but for the case of ASCII letters if and only if they
/// are equally long and each character of the one is that of the other, or the
/// same letter of ASCII in the other case.
pub proof fn law_ignoring_case(a: Seq<char>, b: Seq<char>)
    ensures
        same_ignoring_ascii_case(a, b) <==> a.len() == b.len() && forall|i: int|
            0 <= i < a.len() ==> {
                ||| #[trigger] a[i] == b[i]
                ||| 'A' <= a[i] <= 'Z' && b[i] as u32 == a[i] as u32 + 32
                ||| 'A' <= b[i] <= 'Z' && a[i] as u32 == b[i] as u32 + 32
            },
{
    if a.len() == b.len() {
        assert forall|i: int| 0 <= i < a.len() implies (ascii_lower(#[trigger] a[i])
            == ascii_lower(b[i]) <==> {
            ||| a[i] == b[i]
            ||| 'A' <= a[i] <= 'Z' && b[i] as u32 == a[i] as u32 + 32
            ||| 'A' <= b[i] <= 'Z' && a[i] as u32 == b[i] as u32 + 32
        }) by {}
    }
}

proof fn lemma_first_newline(a: Seq<char>, b: Seq<char>)
    requires
        !a.contains('\n'),
        b.len() > 0 ==> b[0] == '\n',
    ensures
        first_newline(a + b) == a.len(),
    decreases a.len(),
{
    if a.len() == 0 {
        assert(a + b =~= b);
    } else {
        assert(a.contains(a[0]));
        assert(!a.drop_first().contains('\n')) by {
            if a.drop_first().contains('\n') {
                assert(a[a.drop_first().index_of('\n') + 1] == '\n');
            }
        }
        lemma_first_newline(a.drop_first(), b);
        assert((a + b)[0] == a[0]);
        assert((a + b).drop_first() =~= a.drop_first() + b);
    }
}

/// The lines of a text, one after the other: what stands before a line feed is a
/// line, without a carriage return at its end, and the lines of what follows come
/// next. A text without a line feed is one line, and the empty text none.
pub proof fn law_lines_of_a_text(line: Seq<char>, rest: Seq<char>)
    requires
        !line.contains('\n'),
    ensures
        lines(line + seq!['\n'] + rest) == seq![
            if line.len() > 0 && line.last() == '\r' {
                line.drop_last()
            } else {
                line
            },
        ] + lines(rest),
        line.len() > 0 ==> lines(line) == seq![line],
        lines(Seq::<char>::empty()) == Seq::<Seq<char>>::empty(),
{
    let t = line + seq!['\n'] + rest;
    let tail = seq!['\n'] + rest;
    assert(t =~= line + tail);
    lemma_first_newline(line, tail);
    assert(t.take(line.len() as int) =~= line);
    assert(t.skip(line.len() + 1int) =~= rest);
    if line.len() > 0 {
        lemma_first_newline(line, Seq::empty());
        assert(line + Seq::<char>::empty() =~= line);
    }
}

proof fn lemma_all_space(s: Seq<char>)
    requires
        forall|i: int| 0 <= i < s.len() ==> is_white_space(#[trigger] s[i]),
    ensures
        trim_start(s) == Seq::<char>::empty(),
    decreases s.len(),
{
    if s.len() > 0 {
        assert(is_white_space(s[0]));
        assert forall|i: int| 0 <= i < s.drop_first().len() implies is_white_space(
            #[trigger] s.drop_first()[i],
        ) by {
            assert(s.drop_first()[i] == s[i + 1]);
        }
        lemma_all_space(s.drop_first());
    } else {
        assert(s =~= Seq::empty());
    }
}

/// Trimming takes the white space at both ends, and nothing else.
pub proof fn law_trim_takes_the_ends(before: Seq<char>, s: Seq<char>, after: Seq<char>)
    requires
        forall|i: int| 0 <= i < before.len() ==> is_white_space(#[trigger] before[i]),
        forall|i: int| 0 <= i < after.len() ==> is_white_space(#[trigger] after[i]),
        s.len() > 0 ==> !is_white_space(s[0]) && !is_white_space(s.last()),
    ensures
        trim(before + s + after) == s,
{
    if s.len() > 0 {
        assert(before + s + after =~= before + (s + after));
        assert((s + after)[0] == s[0]);
        lemma_trim_start(before, s + after);
        lemma_trim_end(s, after);
    } else {
        let all = before + s + after;
        assert forall|i: int| 0 <= i < all.len() implies is_white_space(#[trigger] all[i]) by {
            if i < before.len() {
                assert(all[i] == before[i]);
            } else {
                assert(all[i] == after[i - before.len()]);
            }
        }
        lemma_all_space(all);
        assert(trim(all) =~= s);
    }
}

/// Joined, a list reads piece by piece, with the separator before each but the
/// first.
pub proof fn law_joined_reads_piece_by_piece(
    pieces: Seq<Seq<char>>,
    last: Seq<char>,
    sep: Seq<char>,
)
    ensures
        joined(seq![last], sep) == last,
        joined(Seq::empty(), sep) == Seq::<char>::empty(),
        pieces.len() > 0 ==> joined(pieces.push(last), sep) == joined(pieces, sep) + sep + last,
{
    assert(pieces.push(last).drop_last() =~= pieces);
}

} // verus!
