//! Grapheme clusters of a text, and small facts about single graphemes.
use unicode_segmentation::UnicodeSegmentation;
use vstd::prelude::*;
use vstd::string::StrSliceExecFns;

verus! {

/// The extended grapheme clusters of a text, in order.
pub uninterp spec fn graphemes_of(s: Seq<char>) -> Seq<Seq<char>>;

/// The character sequences held by a list of strings.
pub open spec fn views_of(v: Seq<String>) -> Seq<Seq<char>> {
    v.map_values(|x: String| x@)
}

/// The text formed by joining a list of character sequences.
pub open spec fn concat(s: Seq<Seq<char>>) -> Seq<char>
    decreases s.len(),
{
    if s.len() == 0 {
        Seq::empty()
    } else {
        concat(s.drop_last()) + s.last()
    }
}

/// Relies on `UnicodeSegmentation::graphemes` with extended clusters: the
/// clusters are a function of the text alone, none is empty, and joined in
/// order they give back the text.
#[verifier::external_body]
pub(crate) fn graphemes(s: &str) -> (r: Vec<String>)
    ensures
        views_of(r@) == graphemes_of(s@),
        concat(views_of(r@)) == s@,
        forall|i: int| 0 <= i < r@.len() ==> (#[trigger] r@[i])@.len() > 0,
{
    s.graphemes(true).map(|g| g.to_string()).collect()
}

/// Joining `s[0..b]` is joining `s[0..a]` and then `s[a..b]`.
pub proof fn lemma_concat_split(s: Seq<Seq<char>>, a: int, b: int)
    requires
        0 <= a <= b <= s.len(),
    ensures
        concat(s.subrange(0, b)) == concat(s.subrange(0, a)) + concat(s.subrange(a, b)),
    decreases b - a,
{
    if a < b {
        lemma_concat_split(s, a, b - 1);
        assert(s.subrange(0, b).drop_last() =~= s.subrange(0, b - 1));
        assert(s.subrange(a, b).drop_last() =~= s.subrange(a, b - 1));
        assert(concat(s.subrange(0, a)) + (concat(s.subrange(a, b - 1)) + s[b - 1]) =~= (concat(s.subrange(0, a))
            + concat(s.subrange(a, b - 1))) + s[b - 1]);
    } else {
        assert(s.subrange(a, b) =~= Seq::<Seq<char>>::empty());
        assert(concat(s.subrange(0, a)) + Seq::<char>::empty() =~= concat(s.subrange(0, a)));
    }
}

/// The position, in characters, at which grapheme `a` of `s` starts.
pub open spec fn char_offset(s: Seq<Seq<char>>, a: int) -> int {
    concat(s.subrange(0, a)).len() as int
}

/// The graphemes `s[a..b]`, joined, stand in the joined text between the
/// offsets of `a` and `b`.
pub proof fn lemma_concat_range(s: Seq<Seq<char>>, a: int, b: int)
    requires
        0 <= a <= b <= s.len(),
    ensures
        char_offset(s, a) <= char_offset(s, b) <= concat(s).len(),
        concat(s).subrange(char_offset(s, a), char_offset(s, b)) == concat(s.subrange(a, b)),
{
    lemma_concat_split(s, a, b);
    lemma_concat_split(s, b, s.len() as int);
    assert(s.subrange(0, s.len() as int) =~= s);
    let pre = concat(s.subrange(0, a));
    let mid = concat(s.subrange(a, b));
    let post = concat(s.subrange(b, s.len() as int));
    assert(concat(s) == pre + mid + post);
    assert((pre + mid + post).subrange(pre.len() as int, (pre.len() + mid.len()) as int) =~= mid);
}

/// Whether a grapheme is exactly the character `c`.
pub fn is_char(g: &String, c: char) -> (r: bool)
    ensures
        r == (g@ == seq![c]),
{
    let s = g.as_str();
    if s.unicode_len() == 1 {
        let d = s.get_char(0);
        if d == c {
            assert(g@ =~= seq![c]);
            true
        } else {
            false
        }
    } else {
        false
    }
}

/// Joins `v[from..to]` into one string.
pub fn join_range(v: &Vec<String>, from: usize, to: usize) -> (r: String)
    requires
        from <= to <= v.len(),
    ensures
        r@ == concat(views_of(v@.subrange(from as int, to as int))),
{
    let mut out = String::new();
    let mut i = from;
    while i < to
        invariant
            from <= i <= to <= v.len(),
            out@ == concat(views_of(v@.subrange(from as int, i as int))),
        decreases to - i,
    {
        proof {
            let a = views_of(v@.subrange(from as int, i as int + 1));
            assert(a.drop_last() =~= views_of(v@.subrange(from as int, i as int)));
        }
        out = out.concat(v[i].as_str());
        i = i + 1;
    }
    out
}

} // verus!
