//! The text buffer: splitting the input into lines and measuring it.
//!
//! A text is an ordered sequence of lines, each an ordered sequence of
//! characters. Lines end at a line feed or at a carriage return directly
//! followed by a line feed; the terminator itself belongs to no line, and
//! a trailing terminator opens no empty last line.

use vstd::prelude::*;

verus! {

/// The sequences of characters held by a sequence of character vectors.
pub open spec fn views(lines: Seq<Vec<char>>) -> Seq<Seq<char>> {
    lines.map_values(|l: Vec<char>| l@)
}

/// The text split into lines. A line feed ends a line; a carriage return
/// directly before a line feed belongs to the terminator; a lone carriage
/// return is an ordinary character; a last line without a terminator is
/// kept as it stands, and a trailing terminator opens no empty last line.
pub open spec fn split_lines_spec(s: Seq<char>) -> Seq<Seq<char>>
    decreases s.len(),
{
    if s.len() == 0 {
        Seq::empty()
    } else if s[0] == '\n' {
        seq![Seq::<char>::empty()] + split_lines_spec(s.skip(1))
    } else if s[0] == '\r' && s.len() > 1 && s[1] == '\n' {
        seq![Seq::<char>::empty()] + split_lines_spec(s.skip(2))
    } else {
        let rest = split_lines_spec(s.skip(1));
        if rest.len() == 0 {
            seq![seq![s[0]]]
        } else {
            seq![seq![s[0]] + rest[0]] + rest.skip(1)
        }
    }
}

/// An unfinished line `cur` joined onto the lines of the text behind it:
/// `cur` extends the first of those lines, or stands alone as a last line
/// if it is not empty.
spec fn glue(cur: Seq<char>, rest: Seq<Seq<char>>) -> Seq<Seq<char>> {
    if rest.len() == 0 {
        if cur.len() == 0 {
            Seq::empty()
        } else {
            seq![cur]
        }
    } else {
        seq![cur + rest[0]] + rest.skip(1)
    }
}

/// Split a text into its lines.
pub fn split_lines(text: &Vec<char>) -> (lines: Vec<Vec<char>>)
    ensures
        views(lines@) == split_lines_spec(text@),
{
    let ghost t = text@;
    let ghost target = split_lines_spec(t);
    let mut lines: Vec<Vec<char>> = Vec::new();
    let mut cur: Vec<char> = Vec::new();
    let mut i: usize = 0;
    proof {
        assert(t.skip(0) =~= t);
        assert(glue(cur@, target) =~~= target);
        assert(views(lines@) + glue(cur@, target) =~~= glue(cur@, target));
    }
    while i < text.len()
        invariant
            i <= t.len(),
            t == text@,
            target == split_lines_spec(t),
            target =~~= views(lines@) + glue(cur@, split_lines_spec(t.skip(i as int))),
        decreases t.len() - i,
    {
        let ghost s = t.skip(i as int);
        let ghost rest_old = split_lines_spec(s);
        let c = text[i];
        proof {
            assert(s[0] == c);
        }
        if c == '\n' {
            proof {
                assert(s.skip(1) =~= t.skip(i as int + 1));
                let rest = split_lines_spec(t.skip(i as int + 1));
                assert(rest_old == seq![Seq::<char>::empty()] + rest);
                assert(glue(cur@, rest_old) =~~= seq![cur@] + rest);
                assert(glue(Seq::<char>::empty(), rest) =~~= rest);
                assert(views(lines@.push(cur)) =~~= views(lines@) + seq![cur@]);
                assert(views(lines@.push(cur)) + glue(Seq::<char>::empty(), rest)
                    =~~= views(lines@) + glue(cur@, rest_old));
            }
            lines.push(cur);
            cur = Vec::new();
            i = i + 1;
        } else {
            let is_crlf = c == '\r' && i + 1 < text.len() && text[i + 1] == '\n';
            if is_crlf {
                proof {
                    assert(s.len() > 1 && s[1] == '\n');
                    assert(s.skip(2) =~= t.skip(i as int + 2));
                    let rest = split_lines_spec(t.skip(i as int + 2));
                    assert(rest_old == seq![Seq::<char>::empty()] + rest);
                    assert(glue(cur@, rest_old) =~~= seq![cur@] + rest);
                    assert(glue(Seq::<char>::empty(), rest) =~~= rest);
                    assert(views(lines@.push(cur)) =~~= views(lines@) + seq![cur@]);
                    assert(views(lines@.push(cur)) + glue(Seq::<char>::empty(), rest)
                        =~~= views(lines@) + glue(cur@, rest_old));
                }
                lines.push(cur);
                cur = Vec::new();
                i = i + 2;
            } else {
                proof {
                    assert(!(s[0] == '\r' && s.len() > 1 && s[1] == '\n'));
                    assert(s.skip(1) =~= t.skip(i as int + 1));
                    let rest = split_lines_spec(t.skip(i as int + 1));
                    if rest.len() == 0 {
                        assert(rest_old == seq![seq![c]]);
                        assert(glue(cur@, rest_old) =~~= seq![cur@ + seq![c]]);
                        assert(glue(cur@.push(c), rest) =~~= seq![cur@.push(c)]);
                        assert(cur@.push(c) =~= cur@ + seq![c]);
                    } else {
                        assert(rest_old == seq![seq![c] + rest[0]] + rest.skip(1));
                        assert(glue(cur@, rest_old)
                            =~~= seq![cur@ + (seq![c] + rest[0])] + rest.skip(1));
                        assert(cur@.push(c) + rest[0] =~= cur@ + (seq![c] + rest[0]));
                        assert(glue(cur@.push(c), rest)
                            =~~= seq![cur@.push(c) + rest[0]] + rest.skip(1));
                    }
                    assert(glue(cur@.push(c), rest) =~~= glue(cur@, rest_old));
                }
                cur.push(c);
                i = i + 1;
            }
        }
    }
    proof {
        assert(t.skip(i as int) =~= Seq::<char>::empty());
        assert(split_lines_spec(t.skip(i as int)) == Seq::<Seq<char>>::empty());
    }
    if cur.len() > 0 {
        proof {
            assert(views(lines@.push(cur)) =~~= views(lines@) + seq![cur@]);
            assert(glue(cur@, Seq::<Seq<char>>::empty()) =~~= seq![cur@]);
        }
        lines.push(cur);
    } else {
        proof {
            assert(glue(cur@, Seq::<Seq<char>>::empty()) =~~= Seq::<Seq<char>>::empty());
            assert(views(lines@) + Seq::<Seq<char>>::empty() =~~= views(lines@));
        }
    }
    proof {
        assert(views(lines@) =~~= target);
    }
    lines
}

/// The length of the longest line, or zero for an empty text.
pub open spec fn max_len_spec(text: Seq<Seq<char>>) -> int
    decreases text.len(),
{
    if text.len() == 0 {
        0
    } else {
        let m = max_len_spec(text.drop_last());
        if text.last().len() > m {
            text.last().len() as int
        } else {
            m
        }
    }
}

/// The longest line's length bounds every line's length from above.
pub proof fn lemma_max_len_bounds(text: Seq<Seq<char>>)
    ensures
        max_len_spec(text) >= 0,
        forall|i: int| 0 <= i < text.len() ==> #[trigger] text[i].len() <= max_len_spec(text),
    decreases text.len(),
{
    if text.len() > 0 {
        lemma_max_len_bounds(text.drop_last());
        assert forall|i: int| 0 <= i < text.len() implies #[trigger] text[i].len()
            <= max_len_spec(text) by {
            if i < text.len() - 1 {
                assert(text.drop_last()[i] == text[i]);
            }
        }
    }
}

/// The length of the longest line of the text; zero for an empty text.
pub fn max_line_len(lines: &Vec<Vec<char>>) -> (m: usize)
    ensures
        m == max_len_spec(views(lines@)),
{
    let ghost v = views(lines@);
    let mut m: usize = 0;
    let mut i: usize = 0;
    proof {
        assert(v.take(0) =~= Seq::<Seq<char>>::empty());
    }
    while i < lines.len()
        invariant
            i <= lines@.len(),
            v == views(lines@),
            m == max_len_spec(v.take(i as int)),
        decreases lines@.len() - i,
    {
        proof {
            assert(v.take(i as int + 1).drop_last() =~= v.take(i as int));
            assert(v.take(i as int + 1).last() == lines@[i as int]@);
        }
        let len = lines[i].len();
        if len > m {
            m = len;
        }
        i = i + 1;
    }
    proof {
        assert(v.take(i as int) =~= v);
    }
    m
}

} // verus!
