//! Text as sequences of characters: order, search, splitting and rendering.

use vstd::prelude::*;

verus! {

/// Lexicographic order on text, by character.
pub open spec fn text_less(a: Seq<char>, b: Seq<char>) -> bool
    decreases a.len(),
{
    if b.len() == 0 {
        false
    } else if a.len() == 0 {
        true
    } else if a[0] != b[0] {
        a[0] < b[0]
    } else {
        text_less(a.drop_first(), b.drop_first())
    }
}

/// No text precedes itself.
pub proof fn text_less_irreflexive(a: Seq<char>)
    ensures
        !text_less(a, a),
    decreases a.len(),
{
    if a.len() > 0 {
        text_less_irreflexive(a.drop_first());
    }
}

/// The order on text is transitive.
pub proof fn text_less_transitive(a: Seq<char>, b: Seq<char>, c: Seq<char>)
    requires
        text_less(a, b),
        text_less(b, c),
    ensures
        text_less(a, c),
    decreases a.len(),
{
    if a.len() > 0 && b.len() > 0 && c.len() > 0 && a[0] == b[0] && b[0] == c[0] {
        text_less_transitive(a.drop_first(), b.drop_first(), c.drop_first());
    }
}

/// Two texts are equal or one precedes the other.
pub proof fn text_less_total(a: Seq<char>, b: Seq<char>)
    ensures
        text_less(a, b) || a == b || text_less(b, a),
    decreases a.len(),
{
    if a.len() > 0 && b.len() > 0 && a[0] == b[0] {
        text_less_total(a.drop_first(), b.drop_first());
        if a.drop_first() == b.drop_first() {
            assert(a =~= seq![a[0]] + a.drop_first());
            assert(b =~= seq![b[0]] + b.drop_first());
        }
    } else if a.len() == 0 && b.len() == 0 {
        assert(a =~= b);
    }
}

/// `sep` stands in `text` at offset `i`.
pub open spec fn occurs_at(text: Seq<char>, sep: Seq<char>, i: int) -> bool {
    0 <= i && i + sep.len() <= text.len() && text.subrange(i, i + sep.len()) == sep
}

/// The offset of the first occurrence of `sep`.
pub open spec fn is_first(text: Seq<char>, sep: Seq<char>, i: int) -> bool {
    occurs_at(text, sep, i) && forall|j: int| 0 <= j < i ==> !occurs_at(text, sep, j)
}

/// The offset of the last occurrence of `sep`.
pub open spec fn is_last(text: Seq<char>, sep: Seq<char>, i: int) -> bool {
    occurs_at(text, sep, i) && forall|j: int| i < j ==> !occurs_at(text, sep, j)
}

/// `sep` stands somewhere in `text`.
pub open spec fn has_text(text: Seq<char>, sep: Seq<char>) -> bool {
    exists|i: int| occurs_at(text, sep, i)
}

/// `text` cut in two around the first occurrence of `sep`, which is in neither half.
pub open spec fn split_first(text: Seq<char>, sep: Seq<char>) -> Option<(Seq<char>, Seq<char>)> {
    if has_text(text, sep) {
        let i = choose|i: int| is_first(text, sep, i);
        Some((text.subrange(0, i), text.subrange(i + sep.len(), text.len() as int)))
    } else {
        None
    }
}

/// `text` cut in two around the last occurrence of `sep`, which is in neither half.
pub open spec fn split_last(text: Seq<char>, sep: Seq<char>) -> Option<(Seq<char>, Seq<char>)> {
    if has_text(text, sep) {
        let i = choose|i: int| is_last(text, sep, i);
        Some((text.subrange(0, i), text.subrange(i + sep.len(), text.len() as int)))
    } else {
        None
    }
}

/// The split around the first occurrence is the split at that offset.
pub proof fn split_first_at(text: Seq<char>, sep: Seq<char>, i: int)
    requires
        is_first(text, sep, i),
    ensures
        split_first(text, sep) == Some(
            (text.subrange(0, i), text.subrange(i + sep.len(), text.len() as int)),
        ),
{
    assert(occurs_at(text, sep, i));
    let k = choose|k: int| is_first(text, sep, k);
    assert(is_first(text, sep, k));
    assert(occurs_at(text, sep, k));
    assert(k == i);
}

/// The split around the last occurrence is the split at that offset.
pub proof fn split_last_at(text: Seq<char>, sep: Seq<char>, i: int)
    requires
        is_last(text, sep, i),
    ensures
        split_last(text, sep) == Some(
            (text.subrange(0, i), text.subrange(i + sep.len(), text.len() as int)),
        ),
{
    assert(occurs_at(text, sep, i));
    let k = choose|k: int| is_last(text, sep, k);
    assert(is_last(text, sep, k));
    assert(occurs_at(text, sep, k));
    assert(k == i);
}

/// The parts joined, with `sep` between neighbours.
pub open spec fn join_texts(parts: Seq<Seq<char>>, sep: Seq<char>) -> Seq<char>
    decreases parts.len(),
{
    if parts.len() == 0 {
        Seq::empty()
    } else if parts.len() == 1 {
        parts[0]
    } else {
        join_texts(parts.drop_last(), sep) + sep + parts.last()
    }
}

/// `text` begins with `prefix`.
pub open spec fn begins_with(text: Seq<char>, prefix: Seq<char>) -> bool {
    occurs_at(text, prefix, 0)
}

/// The decimal digits of a number, without leading zeros.
pub open spec fn decimal(n: nat) -> Seq<char>
    decreases n,
{
    if n < 10 {
        seq![digit_char(n)]
    } else {
        decimal(n / 10).push(digit_char(n % 10))
    }
}

/// The character of a decimal or hexadecimal digit, in lower case.
pub open spec fn digit_char(d: nat) -> char {
    if d < 10 {
        (('0' as u32) + d) as char
    } else {
        (('a' as u32) + (d - 10)) as char
    }
}

/// Two lower-case hexadecimal digits for every byte.
pub open spec fn hex_text(bytes: Seq<u8>) -> Seq<char> {
    Seq::new(
        bytes.len() * 2,
        |i: int|
            if i % 2 == 0 {
                digit_char((bytes[i / 2] / 16) as nat)
            } else {
                digit_char((bytes[i / 2] % 16) as nat)
            },
    )
}

/// `String::push` adds one character at the end.
pub assume_specification[ String::push ](s: &mut String, c: char)
    ensures
        final(s)@ == old(s)@.push(c),
;

/// The characters of a text.
pub fn chars_of(s: &str) -> (v: Vec<char>)
    ensures
        v@ == s@,
{
    let mut v: Vec<char> = Vec::new();
    for c in it: s.chars()
        invariant
            it.seq() == s@,
            v@ == s@.subrange(0, it.index() as int),
    {
        v.push(c);
    }
    assert(s@.subrange(0, s@.len() as int) =~= s@);
    v
}

/// Whether two texts are the same.
pub fn same_text(a: &str, b: &str) -> (same: bool)
    ensures
        same == (a@ == b@),
{
    let a = a.to_owned();
    let b = b.to_owned();
    a == b
}

/// Whether one text precedes another.
pub fn text_before(a: &str, b: &str) -> (before: bool)
    ensures
        before == text_less(a@, b@),
{
    let x = chars_of(a);
    let y = chars_of(b);
    let mut i: usize = 0;
    assert(a@.skip(0) =~= a@);
    assert(b@.skip(0) =~= b@);
    while i < x.len() && i < y.len() && x[i] == y[i]
        invariant
            x@ == a@,
            y@ == b@,
            i <= x.len(),
            i <= y.len(),
            text_less(a@, b@) == text_less(a@.skip(i as int), b@.skip(i as int)),
        decreases x.len() - i,
    {
        assert(a@.skip(i as int).drop_first() =~= a@.skip(i + 1));
        assert(b@.skip(i as int).drop_first() =~= b@.skip(i + 1));
        i = i + 1;
    }
    if i < x.len() && i < y.len() {
        x[i] < y[i]
    } else {
        i < y.len()
    }
}

/// Whether `sep` stands in `text` at offset `at`.
fn stands_at(text: &Vec<char>, sep: &Vec<char>, at: usize) -> (found: bool)
    requires
        at + sep@.len() <= text@.len(),
    ensures
        found == occurs_at(text@, sep@, at as int),
{
    let n: usize = text.len();
    let mut i: usize = 0;
    while i < sep.len()
        invariant
            n == text@.len(),
            at + sep@.len() <= n,
            i <= sep@.len(),
            forall|j: int| 0 <= j < i ==> text@[at + j] == sep@[j],
        decreases sep.len() - i,
    {
        if text[at + i] != sep[i] {
            assert(text@.subrange(at as int, at + sep@.len())[i as int] == text@[at + i]);
            return false;
        }
        i = i + 1;
    }
    assert(text@.subrange(at as int, at + sep@.len()) =~= sep@);
    true
}

/// The offset of the first occurrence of `sep`, counted in characters.
pub fn find_first(text: &str, sep: &str) -> (found: Option<usize>)
    ensures
        match found {
            Some(i) => is_first(text@, sep@, i as int),
            None => !has_text(text@, sep@),
        },
{
    let t = chars_of(text);
    let s = chars_of(sep);
    if s.len() > t.len() {
        return None;
    }
    let last: usize = t.len() - s.len();
    let mut i: usize = 0;
    while i <= last
        invariant
            t@ == text@,
            s@ == sep@,
            last == t@.len() - s@.len(),
            i <= last + 1,
            forall|j: int| 0 <= j < i ==> !occurs_at(text@, sep@, j),
        decreases last + 1 - i,
    {
        if stands_at(&t, &s, i) {
            return Some(i);
        }
        if i == last {
            return None;
        }
        i = i + 1;
    }
    None
}

/// The offset of the last occurrence of `sep`, counted in characters.
pub fn find_last(text: &str, sep: &str) -> (found: Option<usize>)
    ensures
        match found {
            Some(i) => is_last(text@, sep@, i as int),
            None => !has_text(text@, sep@),
        },
{
    let t = chars_of(text);
    let s = chars_of(sep);
    if s.len() > t.len() {
        return None;
    }
    let mut i: usize = t.len() - s.len();
    loop
        invariant
            t@ == text@,
            s@ == sep@,
            i <= t@.len() - s@.len(),
            forall|j: int| i < j ==> !occurs_at(text@, sep@, j),
        decreases i,
    {
        if stands_at(&t, &s, i) {
            return Some(i);
        }
        if i == 0 {
            return None;
        }
        i = i - 1;
    }
}

/// Both halves around the first occurrence of `sep`.
pub fn split_at_first(text: &str, sep: &str) -> (halves: Option<(String, String)>)
    ensures
        match halves {
            Some(h) => split_first(text@, sep@) == Some((h.0@, h.1@)),
            None => split_first(text@, sep@) is None,
        },
{
    match find_first(text, sep) {
        Some(i) => {
            proof {
                split_first_at(text@, sep@, i as int);
            }
            let n = text.unicode_len();
            let m = sep.unicode_len();
            Some((text.substring_char(0, i).to_owned(), text.substring_char(i + m, n).to_owned()))
        },
        None => None,
    }
}

/// Both halves around the last occurrence of `sep`.
pub fn split_at_last(text: &str, sep: &str) -> (halves: Option<(String, String)>)
    ensures
        match halves {
            Some(h) => split_last(text@, sep@) == Some((h.0@, h.1@)),
            None => split_last(text@, sep@) is None,
        },
{
    match find_last(text, sep) {
        Some(i) => {
            proof {
                split_last_at(text@, sep@, i as int);
            }
            let n = text.unicode_len();
            let m = sep.unicode_len();
            Some((text.substring_char(0, i).to_owned(), text.substring_char(i + m, n).to_owned()))
        },
        None => None,
    }
}

/// Whether `sep` stands somewhere in `text`.
pub fn contains_text(text: &str, sep: &str) -> (found: bool)
    ensures
        found == has_text(text@, sep@),
{
    match find_first(text, sep) {
        Some(i) => {
            assert(occurs_at(text@, sep@, i as int));
            true
        },
        None => false,
    }
}

/// Whether `text` begins with `prefix`.
pub fn text_begins_with(text: &str, prefix: &str) -> (found: bool)
    ensures
        found == begins_with(text@, prefix@),
{
    let t = chars_of(text);
    let p = chars_of(prefix);
    p.len() <= t.len() && stands_at(&t, &p, 0)
}

/// Two texts joined by a separator.
pub fn join_two(a: &str, sep: &str, b: &str) -> (joined: String)
    ensures
        joined@ == a@ + sep@ + b@,
{
    let mut out = a.to_owned();
    out.append(sep);
    out.append(b);
    out
}

/// The parts joined, with `sep` between neighbours.
pub fn join_all(parts: &Vec<String>, sep: &str) -> (joined: String)
    ensures
        joined@ == join_texts(parts@.map_values(|p: String| p@), sep@),
{
    let ghost all = parts@.map_values(|p: String| p@);
    let mut out = String::new();
    let mut i: usize = 0;
    while i < parts.len()
        invariant
            all == parts@.map_values(|p: String| p@),
            i <= parts@.len(),
            out@ == join_texts(all.take(i as int), sep@),
        decreases parts.len() - i,
    {
        let ghost before = all.take(i as int);
        let ghost after = all.take(i + 1);
        assert(after.drop_last() =~= before);
        assert(after.last() == parts@[i as int]@);
        if i > 0 {
            out.append(sep);
            out.append(parts[i].as_str());
        } else {
            out = parts[i].clone();
        }
        i = i + 1;
    }
    assert(all.take(parts@.len() as int) =~= all);
    out
}

/// The character of a digit below sixteen.
fn digit_to_char(d: u8) -> (c: char)
    requires
        d < 16,
    ensures
        c == digit_char(d as nat),
{
    if d < 10 {
        (48u8 + d) as char
    } else {
        (87u8 + d) as char
    }
}

/// The decimal digits of a number.
pub fn to_decimal(n: u64) -> (digits: String)
    ensures
        digits@ == decimal(n as nat),
    decreases n,
{
    if n < 10 {
        let mut out = String::new();
        out.push(digit_to_char(n as u8));
        assert(out@ =~= seq![digit_char(n as nat)]);
        out
    } else {
        let mut out = to_decimal(n / 10);
        out.push(digit_to_char((n % 10) as u8));
        out
    }
}

/// Two lower-case hexadecimal digits for every byte.
pub fn to_hex(bytes: &Vec<u8>) -> (digits: String)
    ensures
        digits@ == hex_text(bytes@),
{
    let mut out = String::new();
    let mut i: usize = 0;
    while i < bytes.len()
        invariant
            i <= bytes@.len(),
            out@ == hex_text(bytes@.take(i as int)),
        decreases bytes.len() - i,
    {
        let ghost before = out@;
        out.push(digit_to_char(bytes[i] / 16));
        out.push(digit_to_char(bytes[i] % 16));
        proof {
            let next = hex_text(bytes@.take(i + 1));
            assert(before.len() == i * 2);
            assert forall|k: int| 0 <= k < next.len() implies next[k] == out@[k] by {
                if k < i * 2 {
                    assert(k / 2 < i);
                }
            }
            assert(out@ =~= next);
        }
        i = i + 1;
    }
    assert(bytes@.take(bytes@.len() as int) =~= bytes@);
    out
}

} // verus!
