//! Lists in query parameters: `a,b` and `[a, b]` both name the list of `a`
//! and `b`.

use vstd::prelude::*;

use crate::utils::text::{lemma_deep_view_push, Text};

verus! {

/// Whether `c` is white space: a character with the Unicode property
/// `White_Space`.
pub open spec fn is_space(c: char) -> bool {
    let code = c as u32;
    ||| 0x09 <= code <= 0x0D
    ||| code == 0x20
    ||| code == 0x85
    ||| code == 0xA0
    ||| code == 0x1680
    ||| 0x2000 <= code <= 0x200A
    ||| code == 0x2028
    ||| code == 0x2029
    ||| code == 0x202F
    ||| code == 0x205F
    ||| code == 0x3000
}

/// The condition of being no square bracket.
pub open spec fn no_bracket() -> spec_fn(char) -> bool {
    |c: char| c != '[' && c != ']'
}

/// The pieces of `text` between its commas, in their order. A text without
/// commas is one piece, and so is the empty text.
pub open spec fn pieces(text: Text) -> Seq<Text>
    decreases text.len(),
{
    if text.len() == 0 {
        seq![Seq::empty()]
    } else {
        let before = pieces(text.drop_last());
        if text.last() == ',' {
            before.push(Seq::empty())
        } else {
            before.update(before.len() - 1, before.last().push(text.last()))
        }
    }
}

/// `text` without the white space at its end.
pub open spec fn trim_end(text: Text) -> Text
    decreases text.len(),
{
    if text.len() > 0 && is_space(text.last()) {
        trim_end(text.drop_last())
    } else {
        text
    }
}

/// `text` without the white space at its start.
pub open spec fn trim_start(text: Text) -> Text
    decreases text.len(),
{
    if text.len() > 0 && is_space(text.first()) {
        trim_start(text.drop_first())
    } else {
        text
    }
}

/// `text` without the white space at its start and at its end.
pub open spec fn trim(text: Text) -> Text {
    trim_start(trim_end(text))
}

/// The list that `text` names: `text` without square brackets, cut at its
/// commas, each piece without the white space around it.
pub open spec fn listed(text: Text) -> Seq<Text> {
    pieces(text.filter(no_bracket())).map_values(|piece: Text| trim(piece))
}

/// There is always at least one piece.
pub proof fn lemma_pieces_nonempty(text: Text)
    ensures
        pieces(text).len() >= 1,
    decreases text.len(),
{
    if text.len() > 0 {
        lemma_pieces_nonempty(text.drop_last());
    }
}

fn is_white_space(c: char) -> (space: bool)
    ensures
        space == is_space(c),
{
    let code = c as u32;
    (0x09 <= code && code <= 0x0D) || code == 0x20 || code == 0x85 || code == 0xA0 || code
        == 0x1680 || (0x2000 <= code && code <= 0x200A) || code == 0x2028 || code == 0x2029
        || code == 0x202F || code == 0x205F || code == 0x3000
}

fn without_brackets(text: &str) -> (kept: Vec<char>)
    ensures
        kept@ == text@.filter(no_bracket()),
{
    let mut kept: Vec<char> = Vec::new();
    proof {
        reveal(Seq::filter);
    }
    let ghost all = text@;
    for c in it: text.chars()
        invariant
            it.seq() == all,
            kept@ == all.take(it.index() as int).filter(no_bracket()),
    {
        proof {
            let sofar = all.take(it.index() as int);
            assert(all.take(it.index() + 1) =~= sofar.push(c));
            sofar.lemma_filter_push(c, no_bracket());
        }
        if c != '[' && c != ']' {
            kept.push(c);
        }
    }
    assert(all.take(all.len() as int) =~= all);
    kept
}

fn split_at_commas(text: &Vec<char>) -> (cut: Vec<Vec<char>>)
    ensures
        cut.deep_view() == pieces(text@),
{
    let mut cut: Vec<Vec<char>> = Vec::new();
    let mut current: Vec<char> = Vec::new();
    let mut i: usize = 0;
    assert(cut.deep_view().push(current@) =~= pieces(text@.take(0)));
    while i < text.len()
        invariant
            i <= text.len(),
            cut.deep_view().push(current@) == pieces(text@.take(i as int)),
        decreases text.len() - i,
    {
        let ghost sofar = pieces(text@.take(i as int));
        proof {
            assert(text@.take(i + 1).drop_last() =~= text@.take(i as int));
            assert(text@.take(i + 1).last() == text[i as int]);
        }
        if text[i] == ',' {
            let ghost before = cut;
            let piece = current;
            cut.push(piece);
            current = Vec::new();
            proof {
                lemma_deep_view_push(before, cut, piece);
                assert(piece.deep_view() =~= piece@);
                assert(cut.deep_view() == sofar);
                assert(pieces(text@.take(i + 1)) == sofar.push(Seq::empty()));
                assert(cut.deep_view().push(current@) =~= sofar.push(Seq::empty()));
            }
        } else {
            let ghost before = current@;
            current.push(text[i]);
            proof {
                assert(sofar.last() == before);
                assert(pieces(text@.take(i + 1)) == sofar.update(
                    sofar.len() - 1,
                    before.push(text[i as int]),
                ));
                assert(cut.deep_view().push(current@) =~= sofar.update(
                    sofar.len() - 1,
                    before.push(text[i as int]),
                ));
            }
        }
        i += 1;
    }
    assert(text@.take(text.len() as int) =~= text@);
    let ghost before = cut;
    let ghost last = current@;
    cut.push(current);
    proof {
        lemma_deep_view_push(before, cut, current);
        assert(current.deep_view() =~= last);
    }
    cut
}

fn trimmed(piece: &Vec<char>) -> (text: String)
    ensures
        text@ == trim(piece@),
{
    let mut end: usize = piece.len();
    assert(piece@.take(piece.len() as int) =~= piece@);
    while end > 0 && is_white_space(piece[end - 1])
        invariant
            end <= piece.len(),
            trim_end(piece@) == trim_end(piece@.take(end as int)),
        decreases end,
    {
        proof {
            assert(piece@.take(end as int).drop_last() =~= piece@.take(end - 1));
        }
        end -= 1;
    }
    let ghost ended = piece@.take(end as int);
    assert(trim_end(piece@) == ended);
    let mut start: usize = 0;
    assert(ended.skip(0) =~= ended);
    while start < end && is_white_space(piece[start])
        invariant
            start <= end <= piece.len(),
            ended == piece@.take(end as int),
            trim_start(ended) == trim_start(ended.skip(start as int)),
        decreases end - start,
    {
        proof {
            assert(ended.skip(start as int).drop_first() =~= ended.skip(start + 1));
        }
        start += 1;
    }
    let ghost kept = ended.skip(start as int);
    assert(trim_start(ended) == kept);
    let mut text = String::new();
    let mut i: usize = start;
    assert(text@ =~= kept.take(0));
    while i < end
        invariant
            start <= i <= end <= piece.len(),
            kept == piece@.take(end as int).skip(start as int),
            text@ == kept.take(i - start),
        decreases end - i,
    {
        text.push(piece[i]);
        i += 1;
        assert(text@ =~= kept.take(i - start));
    }
    assert(kept.take(end - start) =~= kept);
    text
}

/// The list that `text` names: square brackets are dropped wherever they
/// stand, the rest is cut at its commas, and each piece loses the white space
/// around it. The empty text names the list of the empty text alone.
pub fn deserialise_array(text: &str) -> (list: Vec<String>)
    ensures
        list.deep_view() == listed(text@),
        list@.len() >= 1,
{
    let kept = without_brackets(text);
    let cut = split_at_commas(&kept);
    let mut list: Vec<String> = Vec::new();
    let mut i: usize = 0;
    while i < cut.len()
        invariant
            i <= cut.len(),
            list.deep_view() == cut.deep_view().take(i as int).map_values(|piece: Text| trim(piece)),
        decreases cut.len() - i,
    {
        let ghost before = list;
        let item = trimmed(&cut[i]);
        list.push(item);
        proof {
            lemma_deep_view_push(before, list, item);
            assert(cut.deep_view()[i as int] == cut[i as int]@);
        }
        i += 1;
        assert(list.deep_view() =~= cut.deep_view().take(i as int).map_values(
            |piece: Text| trim(piece),
        ));
    }
    proof {
        assert(cut.deep_view().take(cut.len() as int) =~= cut.deep_view());
        lemma_pieces_nonempty(text@.filter(no_bracket()));
    }
    list
}

} // verus!
