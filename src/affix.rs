//! Affixes: tagged entries (`+` prefix, `-` suffix) whose phonemes are parsed
//! into bracketed tokens, with tie-bar diphthongs kept as one token.
use vstd::prelude::*;
use crate::syllable::views;
use crate::text::{chars_of, push_char, string_of};

verus! {

/// The combining double inverted breve that joins two phonemes into a diphthong.
pub const TIE_BAR: char = '\u{0361}';

/// What position `i` of an affix body contributes to its parsed text: a
/// character followed by a tie bar opens a bracket, a tie bar stands as it
/// is, a last character that follows a tie bar closes the bracket, and any
/// other character is a bracketed token of its own.
pub open spec fn affix_piece(s: Seq<char>, i: int) -> Seq<char> {
    if i + 1 < s.len() {
        if s[i + 1] == TIE_BAR {
            seq!['[', s[i]]
        } else if s[i] == TIE_BAR {
            seq![s[i]]
        } else {
            seq!['[', s[i], ']']
        }
    } else if i > 0 && s[i - 1] == TIE_BAR {
        seq![s[i], ']']
    } else {
        seq!['[', s[i], ']']
    }
}

/// The parsed text of the first `i` positions of an affix body.
pub open spec fn parsed_upto(s: Seq<char>, i: int) -> Seq<char>
    decreases i,
{
    if i <= 0 {
        seq![]
    } else {
        parsed_upto(s, i - 1) + affix_piece(s, i - 1)
    }
}

/// The parsed text of an affix body.
pub open spec fn parsed_affix(s: Seq<char>) -> Seq<char> {
    parsed_upto(s, s.len() as int)
}

/// Whether an affix entry carries the tag `tag` as its first character.
pub open spec fn has_tag(a: Seq<char>, tag: char) -> bool {
    a.len() > 0 && a[0] == tag
}

/// The test that an entry carries the tag `tag`.
pub open spec fn tag_test(tag: char) -> spec_fn(String) -> bool {
    |a: String| has_tag(a@, tag)
}

/// The entries of `affixes` that carry the tag `tag`, in their order.
pub open spec fn tagged(affixes: Seq<String>, tag: char) -> Seq<String> {
    affixes.filter(tag_test(tag))
}

/// Every entry of a tag's bucket carries that tag.
pub proof fn lemma_tagged_entries(affixes: Seq<String>, tag: char)
    ensures
        forall|i: int|
            0 <= i < tagged(affixes, tag).len() ==> has_tag(#[trigger] tagged(affixes, tag)[i]@, tag),
{
    broadcast use vstd::seq_lib::group_filter_ensures;

    assert forall|i: int| 0 <= i < tagged(affixes, tag).len() implies has_tag(
        #[trigger] tagged(affixes, tag)[i]@,
        tag,
    ) by {
        assert(tag_test(tag)(tagged(affixes, tag)[i]));
    }
}

/// The single-space boundary token.
pub open spec fn boundary() -> Seq<char> {
    seq![' ']
}

/// A word with the chosen prefix entry put in front, followed by a boundary,
/// and the chosen suffix entry put at the end, after a boundary that is added
/// unless the word already ends with one. Each entry loses its tag before
/// its body is parsed.
pub open spec fn with_affixes(
    word: Seq<Seq<char>>,
    prefix: Option<Seq<char>>,
    suffix: Option<Seq<char>>,
) -> Seq<Seq<char>> {
    let w = match prefix {
        Some(p) => seq![parsed_affix(p.drop_first()), boundary()] + word,
        None => word,
    };
    match suffix {
        Some(q) => {
            let w2 = if w.len() > 0 && w.last() == boundary() {
                w
            } else {
                w.push(boundary())
            };
            w2.push(parsed_affix(q.drop_first()))
        },
        None => w,
    }
}

/// Parses an affix body, its tag already removed, into bracketed tokens.
pub fn parse_affix(body: &str) -> (r: String)
    ensures
        r@ == parsed_affix(body@),
{
    let cs = chars_of(body);
    let n = cs.len();
    let mut out = String::new();
    let mut i: usize = 0;
    while i < n
        invariant
            cs@ == body@,
            n == cs@.len(),
            i <= n,
            out@ == parsed_upto(body@, i as int),
        decreases n - i,
    {
        let c = cs[i];
        if i + 1 < n {
            if cs[i + 1] == TIE_BAR {
                push_char(&mut out, '[');
                push_char(&mut out, c);
            } else if c == TIE_BAR {
                push_char(&mut out, c);
            } else {
                push_char(&mut out, '[');
                push_char(&mut out, c);
                push_char(&mut out, ']');
            }
        } else if i > 0 && cs[i - 1] == TIE_BAR {
            push_char(&mut out, c);
            push_char(&mut out, ']');
        } else {
            push_char(&mut out, '[');
            push_char(&mut out, c);
            push_char(&mut out, ']');
        }
        assert(out@ =~= parsed_upto(body@, i as int) + affix_piece(body@, i as int));
        i = i + 1;
    }
    out
}

/// An affix entry without its first character, the tag.
pub fn strip_tag(entry: &String) -> (r: String)
    requires
        entry@.len() > 0,
    ensures
        r@ == entry@.drop_first(),
{
    let cs = chars_of(entry.as_str());
    let mut rest: Vec<char> = Vec::new();
    let mut i: usize = 1;
    while i < cs.len()
        invariant
            cs@ == entry@,
            1 <= i <= cs@.len(),
            rest@ == cs@.subrange(1, i as int),
        decreases cs@.len() - i,
    {
        rest.push(cs[i]);
        i = i + 1;
        assert(rest@ =~= cs@.subrange(1, i as int));
    }
    assert(rest@ =~= entry@.drop_first());
    string_of(&rest)
}

/// Whether `entry` starts with `tag`.
pub fn starts_with_tag(entry: &String, tag: char) -> (r: bool)
    ensures
        r == has_tag(entry@, tag),
{
    let cs = chars_of(entry.as_str());
    cs.len() > 0 && cs[0] == tag
}

/// The entries of `affixes` that carry the tag `tag`, in their order.
pub fn affix_bucket(affixes: &Vec<String>, tag: char) -> (r: Vec<String>)
    ensures
        r@ == tagged(affixes@, tag),
{
    let mut r: Vec<String> = Vec::new();
    let mut i: usize = 0;
    while i < affixes.len()
        invariant
            i <= affixes@.len(),
            r@ == tagged(affixes@.subrange(0, i as int), tag),
        decreases affixes@.len() - i,
    {
        let ghost sub = affixes@.subrange(0, i + 1);
        assert(sub.drop_last() =~= affixes@.subrange(0, i as int));
        assert(sub.last() == affixes@[i as int]);
        proof {
            reveal(Seq::filter);
        }
        assert(tagged(sub, tag) == if has_tag(sub.last()@, tag) {
            tagged(sub.drop_last(), tag).push(sub.last())
        } else {
            tagged(sub.drop_last(), tag)
        });
        if starts_with_tag(&affixes[i], tag) {
            r.push(affixes[i].clone());
        }
        i = i + 1;
    }
    assert(affixes@.subrange(0, affixes@.len() as int) =~= affixes@);
    r
}

/// The single-space boundary token.
pub fn boundary_token() -> (r: String)
    ensures
        r@ == boundary(),
{
    let mut r = String::new();
    push_char(&mut r, ' ');
    assert(r@ =~= boundary());
    r
}

/// Puts the chosen prefix and suffix entries, each with its tag, on `word`.
pub fn apply_affixes(word: &mut Vec<String>, prefix: Option<&String>, suffix: Option<&String>)
    requires
        prefix matches Some(p) ==> p@.len() > 0,
        suffix matches Some(q) ==> q@.len() > 0,
    ensures
        views(final(word)@) == with_affixes(
            views(old(word)@),
            match prefix {
                Some(p) => Some(p@),
                None => None,
            },
            match suffix {
                Some(q) => Some(q@),
                None => None,
            },
        ),
{
    let ghost w0 = views(word@);
    if let Some(p) = prefix {
        let tok = parse_affix(strip_tag(p).as_str());
        word.insert(0, tok);
        word.insert(1, boundary_token());
        assert(views(word@) =~= seq![parsed_affix(p@.drop_first()), boundary()] + w0);
    }
    if let Some(q) = suffix {
        let ends_with_boundary = word.len() > 0 && {
            let last = chars_of(word[word.len() - 1].as_str());
            last.len() == 1 && last[0] == ' '
        };
        proof {
            if word@.len() > 0 {
                assert(views(word@).last() == word@.last()@);
                if !ends_with_boundary {
                    assert(word@.last()@ != boundary()) by {
                        if word@.last()@ == boundary() {
                            assert(word@.last()@.len() == 1);
                        }
                    }
                } else {
                    assert(word@.last()@ =~= boundary());
                }
            }
        }
        if !ends_with_boundary {
            word.push(boundary_token());
        }
        let tok = parse_affix(strip_tag(q).as_str());
        word.push(tok);
    }
    assert(views(word@) =~= with_affixes(
        w0,
        match prefix {
            Some(p) => Some(p@),
            None => None,
        },
        match suffix {
            Some(q) => Some(q@),
            None => None,
        },
    ));
}

/// The test that a character is not a quote mark.
pub open spec fn not_quote() -> spec_fn(char) -> bool {
    |c: char| c != '"' && c != '\''
}

/// `s` without its quote marks.
pub open spec fn unquoted(s: Seq<char>) -> Seq<char> {
    s.filter(not_quote())
}

/// The pieces of `s` between commas, in order; there is always at least one.
pub open spec fn split_commas(s: Seq<char>) -> Seq<Seq<char>>
    decreases s.len(),
{
    if s.len() == 0 {
        seq![seq![]]
    } else {
        let prev = split_commas(s.drop_last());
        if s.last() == ',' {
            prev.push(seq![])
        } else {
            prev.update(prev.len() - 1, prev.last().push(s.last()))
        }
    }
}

/// Reads a comma-separated affix list, such as `-ən,+pri`; quote marks are dropped.
pub fn parse_affix_list(list: &str) -> (r: Vec<String>)
    ensures
        views(r@) == split_commas(unquoted(list@)),
{
    let cs = chars_of(list);
    let mut kept: Vec<char> = Vec::new();
    let mut i: usize = 0;
    while i < cs.len()
        invariant
            cs@ == list@,
            i <= cs@.len(),
            kept@ == unquoted(cs@.subrange(0, i as int)),
        decreases cs@.len() - i,
    {
        let ghost sub = cs@.subrange(0, i + 1);
        assert(sub.drop_last() =~= cs@.subrange(0, i as int));
        assert(sub.last() == cs@[i as int]);
        proof {
            reveal(Seq::filter);
        }
        assert(unquoted(sub) == if not_quote()(sub.last()) {
            unquoted(sub.drop_last()).push(sub.last())
        } else {
            unquoted(sub.drop_last())
        });
        if cs[i] != '"' && cs[i] != '\'' {
            kept.push(cs[i]);
        }
        i = i + 1;
    }
    assert(cs@.subrange(0, cs@.len() as int) =~= list@);
    let ghost u = kept@;
    let mut done: Vec<String> = Vec::new();
    let mut cur: Vec<char> = Vec::new();
    let mut j: usize = 0;
    assert(views(done@).push(cur@) =~= split_commas(u.subrange(0, 0)));
    while j < kept.len()
        invariant
            u == kept@,
            j <= u.len(),
            views(done@).push(cur@) == split_commas(u.subrange(0, j as int)),
        decreases u.len() - j,
    {
        let ghost sub = u.subrange(0, j + 1);
        assert(sub.drop_last() =~= u.subrange(0, j as int));
        assert(sub.last() == u[j as int]);
        let ghost before = views(done@);
        if kept[j] == ',' {
            let piece = string_of(&cur);
            done.push(piece);
            cur = Vec::new();
            assert(views(done@).push(cur@) =~= before.push(piece@).push(seq![]));
        } else {
            let ghost old_cur = cur@;
            cur.push(kept[j]);
            assert(views(done@).push(cur@) =~= before.push(old_cur).update(
                before.len() as int,
                old_cur.push(u[j as int]),
            ));
        }
        j = j + 1;
    }
    assert(u.subrange(0, u.len() as int) =~= u);
    let last = string_of(&cur);
    let ghost before = views(done@);
    done.push(last);
    assert(views(done@) =~= before.push(cur@));
    done
}

} // verus!
