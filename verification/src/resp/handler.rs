//! The inbound half of the codec: scanning one buffered read into a
//! command name and its arguments.
//!
//! The frame grammar consumed is a count-prefixed array, `*N`, followed
//! by length-prefixed bulk elements, each pair of lines separated by
//! `\r\n`. Scanning is deliberately lenient: declared bulk lengths are
//! not checked against content, a malformed frame yields whatever
//! elements could be scanned, and a frame that yields nothing becomes
//! the empty command name.

use vstd::prelude::*;

use crate::strutil::{
    is_usize_digits, lower_of, parse_usize, str_to_chars, to_lowercase_string, usize_digits_val,
};

verus! {

/// The first index where the separator `\r\n` begins, or -1.
pub open spec fn crlf_pos(s: Seq<char>) -> int
    decreases s.len(),
{
    if s.len() < 2 {
        -1
    } else if s[0] == '\r' && s[1] == '\n' {
        0
    } else if crlf_pos(s.drop_first()) == -1 {
        -1
    } else {
        crlf_pos(s.drop_first()) + 1
    }
}

/// What `crlf_pos` finds: a first separator, or none at all.
pub proof fn lemma_crlf_pos(s: Seq<char>)
    ensures
        -1 <= crlf_pos(s) < s.len() - 1 || crlf_pos(s) == -1,
        crlf_pos(s) >= 0 ==> crlf_pos(s) + 2 <= s.len() && s[crlf_pos(s)] == '\r'
            && s[crlf_pos(s) + 1] == '\n' && (forall|j: int|
            0 <= j < crlf_pos(s) ==> !((#[trigger] s[j]) == '\r' && s[j + 1] == '\n')),
        crlf_pos(s) == -1 ==> forall|j: int|
            0 <= j && j + 1 < s.len() ==> !((#[trigger] s[j]) == '\r' && s[j + 1] == '\n'),
    decreases s.len(),
{
    if s.len() >= 2 && !(s[0] == '\r' && s[1] == '\n') {
        lemma_crlf_pos(s.drop_first());
        let df = s.drop_first();
        if crlf_pos(s) >= 0 {
            assert(s[crlf_pos(s)] == df[crlf_pos(s) - 1]);
            assert(s[crlf_pos(s) + 1] == df[crlf_pos(s)]);
            assert forall|j: int| 0 <= j < crlf_pos(s) implies !((#[trigger] s[j]) == '\r' && s[j
                + 1] == '\n') by {
                if j > 0 {
                    assert(s[j] == df[j - 1] && s[j + 1] == df[j]);
                }
            }
        } else {
            assert forall|j: int| 0 <= j && j + 1 < s.len() implies !((#[trigger] s[j]) == '\r'
                && s[j + 1] == '\n') by {
                if j > 0 {
                    assert(s[j] == df[j - 1] && s[j + 1] == df[j]);
                }
            }
        }
    } else if s.len() < 2 {
        assert forall|j: int| 0 <= j && j + 1 < s.len() implies !((#[trigger] s[j]) == '\r' && s[j
            + 1] == '\n') by {}
    }
}

/// A separator at `i` behind none earlier pins `crlf_pos` down.
pub proof fn lemma_crlf_pos_found(s: Seq<char>, i: int)
    requires
        0 <= i,
        i + 1 < s.len(),
        s[i] == '\r' && s[i + 1] == '\n',
        forall|j: int| 0 <= j < i ==> !((#[trigger] s[j]) == '\r' && s[j + 1] == '\n'),
    ensures
        crlf_pos(s) == i,
    decreases i,
{
    if i > 0 {
        let df = s.drop_first();
        assert(df[i - 1] == s[i] && df[i] == s[i + 1]);
        assert forall|j: int| 0 <= j < i - 1 implies !((#[trigger] df[j]) == '\r' && df[j + 1]
            == '\n') by {
            assert(df[j] == s[j + 1] && df[j + 1] == s[j + 2]);
        }
        lemma_crlf_pos_found(df, i - 1);
    }
}

/// The segments between `\r\n` separators, in order, empty segments
/// included; a text without a separator is one segment.
pub open spec fn split_crlf(s: Seq<char>) -> Seq<Seq<char>>
    decreases s.len(),
    via split_crlf_decreases
{
    if crlf_pos(s) == -1 {
        seq![s]
    } else {
        seq![s.take(crlf_pos(s))] + split_crlf(s.skip(crlf_pos(s) + 2))
    }
}

#[via_fn]
proof fn split_crlf_decreases(s: Seq<char>) {
    lemma_crlf_pos(s);
}

/// The arguments gathered from the split segments: `n` rounds, each
/// taking a length line and a content line, keeping the content when the
/// length line starts with `$`; missing segments yield nothing.
pub open spec fn collect_args(parts: Seq<Seq<char>>, n: nat) -> Seq<Seq<char>>
    decreases n,
{
    if n == 0 || parts.len() < 2 {
        Seq::empty()
    } else {
        (if parts[0].len() > 0 && parts[0][0] == '$' {
            seq![parts[1]]
        } else {
            Seq::empty()
        }) + collect_args(parts.skip(2), (n - 1) as nat)
    }
}

/// Every element the frame yields, the command name first: nothing
/// unless the text starts with `*` and the count line parses as a
/// number.
pub open spec fn spec_frame_elems(line: Seq<char>) -> Seq<Seq<char>> {
    if line.len() == 0 || line[0] != '*' {
        Seq::empty()
    } else {
        let count_digits = split_crlf(line)[0].drop_first();
        if !is_usize_digits(count_digits) {
            Seq::empty()
        } else {
            collect_args(split_crlf(line).drop_first(), usize_digits_val(count_digits))
        }
    }
}

/// The command name the frame yields: the first element, lowercased, or
/// the empty name when the frame yields nothing.
pub open spec fn spec_frame_command(line: Seq<char>) -> Seq<char> {
    if spec_frame_elems(line).len() == 0 {
        Seq::empty()
    } else {
        lower_of(spec_frame_elems(line)[0])
    }
}

/// The arguments the frame yields: every element after the command name.
pub open spec fn spec_frame_args(line: Seq<char>) -> Seq<Seq<char>> {
    if spec_frame_elems(line).len() == 0 {
        Seq::empty()
    } else {
        spec_frame_elems(line).drop_first()
    }
}

/// Splits a text at every `\r\n`.
fn split_crlf_exec(line: &str) -> (parts: Vec<String>)
    ensures
        parts@.map_values(|p: String| p@) == split_crlf(line@),
        parts@.len() > 0,
{
    let n = line.unicode_len();
    let mut parts: Vec<String> = Vec::new();
    let mut pos: usize = 0;
    proof {
        assert(parts@.map_values(|p: String| p@) =~= Seq::<Seq<char>>::empty());
        assert(line@.skip(0) =~= line@);
        assert(Seq::<Seq<char>>::empty() + split_crlf(line@) =~= split_crlf(line@));
    }
    loop
        invariant
            pos <= n,
            n == line@.len(),
            split_crlf(line@) == parts@.map_values(|p: String| p@) + split_crlf(
                line@.skip(pos as int),
            ),
        decreases n - pos,
    {
        let ghost tail = line@.skip(pos as int);
        proof {
            assert(forall|k: int| 0 <= k < tail.len() ==> tail[k] == line@[pos + k]);
        }
        let mut j = pos;
        while j < n && j + 1 < n && !(line.get_char(j) == '\r' && line.get_char(j + 1) == '\n')
            invariant
                pos <= j <= n,
                n == line@.len(),
                j < n || j == pos && pos == n,
                forall|k: int|
                    pos <= k < j ==> !((#[trigger] line@[k]) == '\r' && line@[k + 1] == '\n'),
            decreases n - j,
        {
            j = j + 1;
        }
        if j < n && j + 1 < n {
            proof {
                assert(tail[j - pos] == '\r' && tail[j - pos + 1] == '\n');
                assert forall|k: int| 0 <= k < j - pos implies !((#[trigger] tail[k]) == '\r'
                    && tail[k + 1] == '\n') by {
                    assert(tail[k] == line@[pos + k] && tail[k + 1] == line@[pos + k + 1]);
                }
                lemma_crlf_pos_found(tail, j - pos);
            }
            let seg = line.substring_char(pos, j);
            let ghost prev = parts@;
            parts.push(String::from_str(seg));
            proof {
                assert(seg@ =~= tail.take(j - pos));
                assert(parts@.map_values(|p: String| p@) =~= prev.map_values(|p: String| p@).push(
                    tail.take(j - pos),
                ));
                assert(line@.skip(j + 2) =~= tail.skip(j - pos + 2));
                assert(split_crlf(tail) == seq![tail.take(j - pos)] + split_crlf(
                    tail.skip(j - pos + 2),
                ));
                assert(prev.map_values(|p: String| p@) + (seq![tail.take(j - pos)] + split_crlf(
                    tail.skip(j - pos + 2),
                )) =~= parts@.map_values(|p: String| p@) + split_crlf(tail.skip(j - pos + 2)));
            }
            pos = j + 2;
        } else {
            proof {
                lemma_crlf_pos(tail);
                if crlf_pos(tail) >= 0 {
                    assert(tail[crlf_pos(tail)] == '\r' && tail[crlf_pos(tail) + 1] == '\n');
                    assert(line@[pos + crlf_pos(tail)] == '\r' && line@[pos + crlf_pos(tail) + 1]
                        == '\n');
                }
                assert(crlf_pos(tail) == -1);
            }
            let seg = line.substring_char(pos, n);
            let ghost prev = parts@;
            parts.push(String::from_str(seg));
            proof {
                assert(seg@ =~= tail);
                assert(split_crlf(tail) == seq![tail]);
                assert(parts@.map_values(|p: String| p@) =~= prev.map_values(|p: String| p@).push(
                    tail,
                ));
                assert(prev.map_values(|p: String| p@) + seq![tail] =~= parts@.map_values(
                    |p: String| p@,
                ));
                assert(split_crlf(line@) =~= parts@.map_values(|p: String| p@));
            }
            return parts;
        }
    }
}

/// Scans one buffered read into the lowercased command name and the
/// argument list; a text that is not a well-formed frame yields the
/// empty command name and no arguments.
pub fn parse_command_with_args(line: &str) -> (r: (String, Vec<String>))
    ensures
        r.0@ == spec_frame_command(line@),
        r.1@.map_values(|a: String| a@) == spec_frame_args(line@),
{
    let chars = str_to_chars(line);
    if chars.len() == 0 || chars[0] != '*' {
        let command = String::new();
        let args: Vec<String> = Vec::new();
        proof {
            assert(args@.map_values(|a: String| a@) =~= Seq::<Seq<char>>::empty());
        }
        return (command, args);
    }
    let parts = split_crlf_exec(line);
    let ghost partviews = parts@.map_values(|p: String| p@);
    let first = parts[0].as_str();
    proof {
        assert(partviews[0] == parts@[0]@);
        assert(partviews[0] == split_crlf(line@)[0]);
        assert(split_crlf(line@)[0].len() >= 1) by {
            lemma_crlf_pos(line@);
            if crlf_pos(line@) == 0 {
                assert(line@[0] == '\r');
            }
            if crlf_pos(line@) == -1 {
                assert(split_crlf(line@)[0] == line@);
            } else {
                assert(split_crlf(line@)[0] == line@.take(crlf_pos(line@)));
            }
        }
    }
    let first_digits = first.substring_char(1, first.unicode_len());
    proof {
        assert(first_digits@ =~= split_crlf(line@)[0].drop_first());
    }
    let digit_chars = str_to_chars(first_digits);
    let num_args = match parse_usize(&digit_chars) {
        Some(v) => v,
        None => {
            let command = String::new();
            let args: Vec<String> = Vec::new();
            proof {
                assert(args@.map_values(|a: String| a@) =~= Seq::<Seq<char>>::empty());
            }
            return (command, args);
        },
    };
    let ghost rest = partviews.drop_first();
    let mut elems: Vec<String> = Vec::new();
    let mut p: usize = 1;
    let mut round: usize = 0;
    proof {
        assert(partviews.skip(1) =~= rest);
    }
    while round < num_args && p < parts.len() && p + 1 < parts.len()
        invariant
            1 <= p <= parts@.len(),
            round <= num_args,
            partviews == parts@.map_values(|x: String| x@),
            collect_args(partviews.drop_first(), num_args as nat) == elems@.map_values(
                |a: String| a@,
            ) + collect_args(partviews.skip(p as int), (num_args - round) as nat),
        decreases num_args - round,
    {
        let ghost cur = partviews.skip(p as int);
        let lenline = &parts[p];
        let keep = lenline.as_str().unicode_len() > 0 && lenline.as_str().get_char(0) == '$';
        let ghost prev = elems@;
        if keep {
            elems.push(parts[p + 1].clone());
        }
        proof {
            assert(cur[0] == partviews[p as int]);
            assert(cur[1] == partviews[p + 1]);
            assert(cur.skip(2) =~= partviews.skip(p + 2));
            assert(collect_args(cur, (num_args - round) as nat) == (if cur[0].len() > 0 && cur[0][0]
                == '$' {
                seq![cur[1]]
            } else {
                Seq::<Seq<char>>::empty()
            }) + collect_args(partviews.skip(p + 2), (num_args - round - 1) as nat));
            if keep {
                assert(elems@.map_values(|a: String| a@) =~= prev.map_values(|a: String| a@).push(
                    partviews[p + 1],
                ));
                assert(prev.map_values(|a: String| a@) + (seq![cur[1]] + collect_args(
                    partviews.skip(p + 2),
                    (num_args - round - 1) as nat,
                )) =~= elems@.map_values(|a: String| a@) + collect_args(
                    partviews.skip(p + 2),
                    (num_args - round - 1) as nat,
                ));
            } else {
                assert(prev.map_values(|a: String| a@) + (Seq::<Seq<char>>::empty() + collect_args(
                    partviews.skip(p + 2),
                    (num_args - round - 1) as nat,
                )) =~= elems@.map_values(|a: String| a@) + collect_args(
                    partviews.skip(p + 2),
                    (num_args - round - 1) as nat,
                ));
            }
        }
        p = p + 2;
        round = round + 1;
    }
    proof {
        assert(collect_args(partviews.skip(p as int), (num_args - round) as nat)
            =~= Seq::<Seq<char>>::empty());
        assert(elems@.map_values(|a: String| a@) + Seq::<Seq<char>>::empty() =~= elems@.map_values(
            |a: String| a@,
        ));
        assert(spec_frame_elems(line@) == elems@.map_values(|a: String| a@));
    }
    if elems.len() == 0 {
        let command = String::new();
        proof {
            assert(elems@.map_values(|a: String| a@) =~= Seq::<Seq<char>>::empty());
        }
        (command, elems)
    } else {
        let first_elem = elems.remove(0);
        let command = to_lowercase_string(first_elem.as_str());
        proof {
            assert(elems@.map_values(|a: String| a@) =~= spec_frame_elems(line@).drop_first());
        }
        (command, elems)
    }
}

} // verus!
