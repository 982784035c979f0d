//! The reply format of the query socket: one line `id|loc|text|score` per
//! answer, with every field cleaned of the characters that would break it.
use vstd::prelude::*;
use vstd::string::*;

verus! {

broadcast use vstd::seq::group_seq_axioms;

/// A character of a field as it is sent: line breaks and the field
/// separator become spaces.
pub open spec fn clean_char(c: char) -> char {
    if c == '\n' || c == '\r' || c == '|' {
        ' '
    } else {
        c
    }
}

/// A field as it is sent.
pub open spec fn cleaned(t: Seq<char>) -> Seq<char> {
    t.map_values(|c: char| clean_char(c))
}

/// One reply line: each field cleaned, separated by `|`, ended by a line
/// break.
pub open spec fn line_of(id: Seq<char>, loc: Seq<char>, text: Seq<char>, score: Seq<char>) -> Seq<
    char,
> {
    cleaned(id) + seq!['|'] + cleaned(loc) + seq!['|'] + cleaned(text) + seq!['|'] + cleaned(score)
        + seq!['\n']
}

/// How many times `c` occurs in `s`.
pub open spec fn count_char(s: Seq<char>, c: char) -> nat
    decreases s.len(),
{
    if s.len() == 0 {
        0
    } else {
        count_char(s.drop_last(), c) + if s.last() == c {
            1nat
        } else {
            0nat
        }
    }
}

/// A field that holds neither the separator nor a line break.
pub open spec fn plain_field(s: Seq<char>) -> bool {
    count_char(s, '|') == 0 && count_char(s, '\n') == 0 && count_char(s, '\r') == 0
}

/// Cleans a field for the reply: `\n`, `\r` and `|` become spaces.
pub fn sanitize_field(text: &str) -> (r: String)
    ensures
        r@ == cleaned(text@),
{
    let n = text.unicode_len();
    let mut out = String::new();
    let mut i: usize = 0;
    while i < n
        invariant
            0 <= i <= n,
            n == text@.len(),
            out@ == cleaned(text@.subrange(0, i as int)),
        decreases n - i,
    {
        let c = text.get_char(i);
        if c == '\n' || c == '\r' || c == '|' {
            proof {
                reveal_strlit(" ");
            }
            assert(" "@ =~= seq![' ']);
            out.append(" ");
        } else {
            assert(text@.subrange(i as int, i + 1) =~= seq![c]);
            out.append(text.substring_char(i, i + 1));
        }
        assert(cleaned(text@.subrange(0, i + 1)) =~= cleaned(text@.subrange(0, i as int)).push(
            clean_char(c),
        ));
        i += 1;
    }
    assert(text@.subrange(0, n as int) =~= text@);
    out
}

/// One reply line, `id|loc|text|score` and a line break, with every field
/// cleaned: a line holds exactly three `|`, and its only line break ends it.
pub fn reply_line(id: &str, loc: &str, text: &str, score: &str) -> (r: String)
    ensures
        r@ == line_of(id@, loc@, text@, score@),
        plain_field(cleaned(id@)) && plain_field(cleaned(loc@)) && plain_field(cleaned(text@))
            && plain_field(cleaned(score@)),
        count_char(r@, '|') == 3,
        count_char(r@, '\n') == 1,
        count_char(r@, '\r') == 0,
        r@.last() == '\n',
{
    proof {
        lemma_reply_line_shape(id@, loc@, text@, score@);
        reveal_strlit("|");
        reveal_strlit("\n");
    }
    let mut r = sanitize_field(id);
    r.append("|");
    r.append(sanitize_field(loc).as_str());
    r.append("|");
    r.append(sanitize_field(text).as_str());
    r.append("|");
    r.append(sanitize_field(score).as_str());
    r.append("\n");
    assert(r@ =~= line_of(id@, loc@, text@, score@));
    r
}

proof fn lemma_count_concat(a: Seq<char>, b: Seq<char>, c: char)
    ensures
        count_char(a + b, c) == count_char(a, c) + count_char(b, c),
    decreases b.len(),
{
    if b.len() > 0 {
        lemma_count_concat(a, b.drop_last(), c);
        assert((a + b).drop_last() =~= a + b.drop_last());
    }
}

proof fn lemma_cleaned_is_plain(t: Seq<char>)
    ensures
        plain_field(cleaned(t)),
    decreases t.len(),
{
    if t.len() > 0 {
        lemma_cleaned_is_plain(t.drop_last());
        assert(cleaned(t).drop_last() =~= cleaned(t.drop_last()));
    }
}

/// Every reply line holds exactly three `|`, ends with its only line break,
/// and holds no `\r`, whatever its fields hold; no field holds any of the
/// three.
pub proof fn lemma_reply_line_shape(id: Seq<char>, loc: Seq<char>, text: Seq<char>, score: Seq<char>)
    ensures
        count_char(line_of(id, loc, text, score), '|') == 3,
        count_char(line_of(id, loc, text, score), '\n') == 1,
        count_char(line_of(id, loc, text, score), '\r') == 0,
        line_of(id, loc, text, score).last() == '\n',
        plain_field(cleaned(id)),
        plain_field(cleaned(loc)),
        plain_field(cleaned(text)),
        plain_field(cleaned(score)),
{
    lemma_cleaned_is_plain(id);
    lemma_cleaned_is_plain(loc);
    lemma_cleaned_is_plain(score);
    lemma_cleaned_is_plain(text);
    reveal_with_fuel(count_char, 2);
    let bar = seq!['|'];
    let nl = seq!['\n'];
    let ct = cleaned(text);
    assert(count_char(bar, '|') == 1) by {
        assert(bar.drop_last() =~= Seq::<char>::empty());
    }
    assert(count_char(bar, '\n') == 0) by {
        assert(bar.drop_last() =~= Seq::<char>::empty());
    }
    assert(count_char(bar, '\r') == 0) by {
        assert(bar.drop_last() =~= Seq::<char>::empty());
    }
    assert(count_char(nl, '|') == 0) by {
        assert(nl.drop_last() =~= Seq::<char>::empty());
    }
    assert(count_char(nl, '\n') == 1) by {
        assert(nl.drop_last() =~= Seq::<char>::empty());
    }
    assert(count_char(nl, '\r') == 0) by {
        assert(nl.drop_last() =~= Seq::<char>::empty());
    }
    let ci = cleaned(id);
    let cl = cleaned(loc);
    let cc = cleaned(score);
    let l1 = ci + bar;
    let l2 = l1 + cl;
    let l3 = l2 + bar;
    let l4 = l3 + ct;
    let l5 = l4 + bar;
    let l6 = l5 + cc;
    let l7 = l6 + nl;
    assert(l7 =~= line_of(id, loc, text, score));
    let cs = seq!['|', '\n', '\r'];
    assert forall|k: int| 0 <= k < 3 implies count_char(l7, #[trigger] cs[k]) == count_char(ci, cs[k])
        + count_char(bar, cs[k]) + count_char(cl, cs[k]) + count_char(bar, cs[k]) + count_char(ct, cs[k])
        + count_char(bar, cs[k]) + count_char(cc, cs[k]) + count_char(nl, cs[k]) by {
        let c = cs[k];
        lemma_count_concat(ci, bar, c);
        lemma_count_concat(l1, cl, c);
        lemma_count_concat(l2, bar, c);
        lemma_count_concat(l3, ct, c);
        lemma_count_concat(l4, bar, c);
        lemma_count_concat(l5, cc, c);
        lemma_count_concat(l6, nl, c);
    }
    assert(cs[0] == '|' && cs[1] == '\n' && cs[2] == '\r');
}

} // verus!
