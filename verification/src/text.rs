//! Text predicates over `char` sequences used by validation rules.
use vstd::prelude::*;

verus! {

/// Unicode `White_Space` code points, the set `char::is_whitespace` recognises.
pub open spec fn is_white_space(c: char) -> bool {
    let u = c as u32;
    (0x09 <= u <= 0x0D) || u == 0x20 || u == 0x85 || u == 0xA0 || u == 0x1680 || (0x2000 <= u
        <= 0x200A) || u == 0x2028 || u == 0x2029 || u == 0x202F || u == 0x205F || u == 0x3000
}

/// A text is blank when every character is white space (the empty text included).
pub open spec fn is_blank_spec(s: Seq<char>) -> bool {
    forall|i: int| 0 <= i < s.len() ==> is_white_space(#[trigger] s[i])
}

/// `char::is_whitespace`: true exactly for the Unicode `White_Space` code points.
#[verifier::external_body]
fn char_is_whitespace(c: char) -> (r: bool)
    ensures
        r == is_white_space(c),
{
    c.is_whitespace()
}

/// `str::starts_with` with a `&str` pattern: whether `prefix` is a prefix of `s`.
#[verifier::external_body]
pub(crate) fn str_starts_with(s: &str, prefix: &str) -> (r: bool)
    ensures
        r == (prefix@.len() <= s@.len() && s@.subrange(0, prefix@.len() as int) == prefix@),
{
    s.starts_with(prefix)
}

/// `str == str`: character-wise equality.
#[verifier::external_body]
pub(crate) fn str_eq(a: &str, b: &str) -> (r: bool)
    ensures
        r == (a@ == b@),
{
    a == b
}

/// Whether a text is empty after trimming white space at both ends.
pub fn is_blank(s: &str) -> (r: bool)
    ensures
        r == is_blank_spec(s@),
{
    for c in it: s.chars()
        invariant
            it.seq() == s@,
            forall|j: int| 0 <= j < it.index() ==> is_white_space(#[trigger] s@[j]),
    {
        if !char_is_whitespace(c) {
            return false;
        }
    }
    true
}

/// Whether `x` is among `ids`.
pub fn contains_text(ids: &Vec<String>, x: &str) -> (r: bool)
    ensures
        r == text_views(ids@).contains(x@),
{
    let mut i: usize = 0;
    while i < ids.len()
        invariant
            i <= ids@.len(),
            forall|a: int| 0 <= a < i ==> (#[trigger] ids@[a])@ != x@,
        decreases ids@.len() - i,
    {
        if str_eq(ids[i].as_str(), x) {
            assert(text_views(ids@)[i as int] == x@);
            return true;
        }
        i = i + 1;
    }
    proof {
        if text_views(ids@).contains(x@) {
            let k = choose|k: int| 0 <= k < text_views(ids@).len() && text_views(ids@)[k] == x@;
            assert(ids@[k]@ == x@);
        }
    }
    false
}

} // verus!

verus! {

/// The decimal digit character of `d` (0..=9).
pub open spec fn digit_char(d: int) -> char {
    if d == 0 { '0' } else if d == 1 { '1' } else if d == 2 { '2' } else if d == 3 { '3' } else if d
        == 4 { '4' } else if d == 5 { '5' } else if d == 6 { '6' } else if d == 7 { '7' } else if d
        == 8 { '8' } else { '9' }
}

/// Base-ten text of a natural number, without leading zeros.
pub open spec fn decimal_text(n: nat) -> Seq<char>
    decreases n,
{
    if n < 10 {
        seq![digit_char(n as int)]
    } else {
        decimal_text(n / 10).push(digit_char((n % 10) as int))
    }
}

/// Append the digit `d` to `s`.
pub fn append_digit(s: &mut String, d: u32)
    requires
        d < 10,
    ensures
        final(s)@ == old(s)@.push(digit_char(d as int)),
{
    if d == 0 {
        proof { reveal_strlit("0"); }
        s.append("0");
    } else if d == 1 {
        proof { reveal_strlit("1"); }
        s.append("1");
    } else if d == 2 {
        proof { reveal_strlit("2"); }
        s.append("2");
    } else if d == 3 {
        proof { reveal_strlit("3"); }
        s.append("3");
    } else if d == 4 {
        proof { reveal_strlit("4"); }
        s.append("4");
    } else if d == 5 {
        proof { reveal_strlit("5"); }
        s.append("5");
    } else if d == 6 {
        proof { reveal_strlit("6"); }
        s.append("6");
    } else if d == 7 {
        proof { reveal_strlit("7"); }
        s.append("7");
    } else if d == 8 {
        proof { reveal_strlit("8"); }
        s.append("8");
    } else {
        proof { reveal_strlit("9"); }
        s.append("9");
    }
}

/// Append the decimal text of `n` to `s` (as `Display` of an unsigned integer does).
pub fn append_decimal(s: &mut String, n: u64)
    ensures
        final(s)@ == old(s)@ + decimal_text(n as nat),
    decreases n,
{
    if n >= 10 {
        append_decimal(s, n / 10);
    }
    append_digit(s, (n % 10) as u32);
    assert(final(s)@ =~= old(s)@ + decimal_text(n as nat));
}

/// Lexicographic order of texts by code point, a proper prefix first: the order
/// of `str` (UTF-8 byte order is code-point order).
pub open spec fn text_le(a: Seq<char>, b: Seq<char>) -> bool
    decreases a.len(),
{
    if a.len() == 0 {
        true
    } else if b.len() == 0 {
        false
    } else if a[0] != b[0] {
        (a[0] as int) < (b[0] as int)
    } else {
        text_le(a.drop_first(), b.drop_first())
    }
}

/// `text_le` as a relation, for sorting.
pub open spec fn text_order() -> spec_fn(Seq<char>, Seq<char>) -> bool {
    |a: Seq<char>, b: Seq<char>| text_le(a, b)
}

proof fn lemma_text_le_reflexive(a: Seq<char>)
    ensures
        text_le(a, a),
    decreases a.len(),
{
    if a.len() > 0 {
        lemma_text_le_reflexive(a.drop_first());
    }
}

proof fn lemma_text_le_antisymmetric(a: Seq<char>, b: Seq<char>)
    requires
        text_le(a, b),
        text_le(b, a),
    ensures
        a == b,
    decreases a.len(),
{
    if a.len() > 0 && b.len() > 0 {
        if a[0] == b[0] {
            lemma_text_le_antisymmetric(a.drop_first(), b.drop_first());
            assert(a =~= seq![a[0]] + a.drop_first());
            assert(b =~= seq![b[0]] + b.drop_first());
        }
    } else {
        assert(a.len() == 0 && b.len() == 0);
        assert(a =~= b);
    }
}

proof fn lemma_text_le_transitive(a: Seq<char>, b: Seq<char>, c: Seq<char>)
    requires
        text_le(a, b),
        text_le(b, c),
    ensures
        text_le(a, c),
    decreases a.len(),
{
    if a.len() > 0 && b.len() > 0 && c.len() > 0 {
        if a[0] == b[0] && b[0] == c[0] {
            lemma_text_le_transitive(a.drop_first(), b.drop_first(), c.drop_first());
        }
    }
}

proof fn lemma_text_le_total(a: Seq<char>, b: Seq<char>)
    ensures
        text_le(a, b) || text_le(b, a),
    decreases a.len(),
{
    if a.len() > 0 && b.len() > 0 && a[0] == b[0] {
        lemma_text_le_total(a.drop_first(), b.drop_first());
    }
}

/// `text_le` is a total order.
pub proof fn lemma_text_order_total()
    ensures
        vstd::relations::total_ordering(text_order()),
{
    let r = text_order();
    assert forall|x: Seq<char>| #[trigger] r(x, x) by {
        lemma_text_le_reflexive(x);
    }
    assert forall|x: Seq<char>, y: Seq<char>| #[trigger] r(x, y) && #[trigger] r(y, x) implies x == y by {
        lemma_text_le_antisymmetric(x, y);
    }
    assert forall|x: Seq<char>, y: Seq<char>, z: Seq<char>| #[trigger] r(x, y) && #[trigger] r(y, z) implies r(x, z) by {
        lemma_text_le_transitive(x, y, z);
    }
    assert forall|x: Seq<char>, y: Seq<char>| #[trigger] r(x, y) || #[trigger] r(y, x) by {
        lemma_text_le_total(x, y);
    }
}

/// The characters of a text, in order.
pub fn chars_of(s: &str) -> (r: Vec<char>)
    ensures
        r@ == s@,
{
    let mut out: Vec<char> = Vec::new();
    for c in it: s.chars()
        invariant
            it.seq() == s@,
            out@ == s@.take(it.index() as int),
    {
        assert(s@.take(it.index() as int + 1) =~= s@.take(it.index() as int).push(c));
        out.push(c);
    }
    assert(s@.take(s@.len() as int) =~= s@);
    out
}

/// Whether `a` comes no later than `b` in text order.
pub fn text_at_most(a: &str, b: &str) -> (r: bool)
    ensures
        r == text_le(a@, b@),
{
    let av = chars_of(a);
    let bv = chars_of(b);
    let mut i: usize = 0;
    assert(a@.skip(0) =~= a@);
    assert(b@.skip(0) =~= b@);
    while i < av.len() && i < bv.len() && av[i] == bv[i]
        invariant
            av@ == a@,
            bv@ == b@,
            i <= av@.len(),
            i <= bv@.len(),
            text_le(a@, b@) == text_le(a@.skip(i as int), b@.skip(i as int)),
        decreases av@.len() - i,
    {
        assert(a@.skip(i as int).drop_first() =~= a@.skip(i as int + 1));
        assert(b@.skip(i as int).drop_first() =~= b@.skip(i as int + 1));
        i = i + 1;
    }
    if i == av.len() {
        true
    } else if i == bv.len() {
        false
    } else {
        assert(a@.skip(i as int)[0] == av@[i as int]);
        assert(b@.skip(i as int)[0] == bv@[i as int]);
        let x = av[i];
        let y = bv[i];
        x < y
    }
}

/// The texts of a sequence of strings.
pub open spec fn text_views(s: Seq<String>) -> Seq<Seq<char>> {
    s.map_values(|t: String| t@)
}

/// The strings in text order (a stable insertion sort; equal texts keep their
/// relative order, which text order cannot tell apart anyway).
pub fn sort_texts(ids: &[String]) -> (r: Vec<String>)
    ensures
        text_views(r@) == text_views(ids@).sort_by(text_order()),
{
    let ghost order = text_order();
    proof {
        lemma_text_order_total();
    }
    let mut out: Vec<String> = Vec::new();
    let mut i: usize = 0;
    proof {
        assert(text_views(out@) =~= Seq::<Seq<char>>::empty());
        assert(text_views(ids@.take(0)) =~= Seq::<Seq<char>>::empty());
    }
    while i < ids.len()
        invariant
            i <= ids@.len(),
            order == text_order(),
            vstd::relations::total_ordering(order),
            vstd::relations::sorted_by(text_views(out@), order),
            text_views(out@).to_multiset() == text_views(ids@.take(i as int)).to_multiset(),
        decreases ids@.len() - i,
    {
        let x = ids[i].clone();
        let mut pos: usize = 0;
        while pos < out.len() && text_at_most(out[pos].as_str(), x.as_str())
            invariant
                pos <= out@.len(),
                forall|k: int| 0 <= k < pos ==> text_le(#[trigger] out@[k]@, x@),
            decreases out@.len() - pos,
        {
            pos = pos + 1;
        }
        let ghost before = text_views(out@);
        proof {
            assert forall|k: int| pos <= k < before.len() implies !text_le(#[trigger] before[k], x@) && text_le(
                x@,
                before[k],
            ) by {
                if text_le(before[k], x@) {
                    assert(order(before[pos as int], before[k]));
                    lemma_text_le_transitive(before[pos as int], before[k], x@);
                }
                lemma_text_le_total(before[k], x@);
            }
        }
        out.insert(pos, x);
        proof {
            let after = text_views(out@);
            assert(after =~= before.insert(pos as int, x@));
            assert forall|a: int, b: int| 0 <= a < b < after.len() implies #[trigger] order(after[a], after[b]) by {
                if a < pos && b == pos {
                    assert(text_le(out@[a]@, x@));
                } else if a == pos && b > pos {
                    assert(text_le(x@, before[b - 1]));
                } else if a < pos && b > pos {
                    assert(order(before[a], before[b - 1]));
                } else if a > pos {
                    assert(order(before[a - 1], before[b - 1]));
                } else {
                    assert(order(before[a], before[b]));
                }
            }
            vstd::seq_lib::to_multiset_insert(before, pos as int, x@);
            assert(text_views(ids@.take(i as int + 1)) =~= text_views(ids@.take(i as int)).push(ids@[i as int]@));
            vstd::seq_lib::to_multiset_build(text_views(ids@.take(i as int)), ids@[i as int]@);
        }
        i = i + 1;
    }
    proof {
        assert(ids@.take(ids@.len() as int) =~= ids@);
        let v = text_views(ids@);
        v.lemma_sort_by_ensures(order);
        vstd::seq_lib::lemma_sorted_unique(text_views(out@), v.sort_by(order), order);
    }
    out
}


} // verus!
