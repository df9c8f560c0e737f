use vstd::prelude::*;

use crate::adjacency::pair_views;
use crate::map_error::{map_error_view, MapError, MapErrorView};
use crate::path::{comma_index, lemma_comma_index};
use crate::support::push_char;
use crate::text::string_views;

verus! {

/// A line without the carriage return that ends it, if any.
pub open spec fn strip_cr(l: Seq<char>) -> Seq<char> {
    if l.len() > 0 && l.last() == '\r' {
        l.drop_last()
    } else {
        l
    }
}

/// The lines of `s` that a newline ends (each without its newline and
/// carriage return), and the text after the last newline.
pub open spec fn line_state(s: Seq<char>) -> (Seq<Seq<char>>, Seq<char>)
    decreases s.len(),
{
    if s.len() == 0 {
        (Seq::empty(), Seq::empty())
    } else {
        let (ls, cur) = line_state(s.drop_last());
        if s.last() == '\n' {
            (ls.push(strip_cr(cur)), Seq::empty())
        } else {
            (ls, cur.push(s.last()))
        }
    }
}

/// The lines of a text as reading it line by line gives them
/// (`BufRead::lines`): split at newlines, a carriage return before a
/// newline dropped, and no empty line after a final newline.
pub open spec fn text_lines(s: Seq<char>) -> Seq<Seq<char>> {
    let (ls, cur) = line_state(s);
    if cur.len() == 0 {
        ls
    } else {
        ls.push(cur)
    }
}

/// The pairs of an adjacency list, each line split at its first comma; or
/// the first line without a comma.
pub open spec fn adjacency_pairs(lines: Seq<Seq<char>>) -> Result<Seq<(Seq<char>, Seq<char>)>, Seq<char>>
    decreases lines.len(),
{
    if lines.len() == 0 {
        Ok(Seq::empty())
    } else {
        match adjacency_pairs(lines.drop_last()) {
            Err(l) => Err(l),
            Ok(ps) => {
                let l = lines.last();
                match comma_index(l) {
                    Some(k) => Ok(ps.push((l.subrange(0, k), l.subrange(k + 1, l.len() as int)))),
                    None => Err(l),
                }
            },
        }
    }
}

/// The text of an adjacency list: a line `a,b` for each pair.
pub open spec fn adjacency_text(pairs: Seq<(Seq<char>, Seq<char>)>) -> Seq<char>
    decreases pairs.len(),
{
    if pairs.len() == 0 {
        Seq::empty()
    } else {
        adjacency_text(pairs.drop_last()) + pairs.last().0 + seq![','] + pairs.last().1 + seq!['\n']
    }
}

/// The lines an adjacency list is written as: `a,b` for each pair.
pub open spec fn pair_lines(ps: Seq<(Seq<char>, Seq<char>)>) -> Seq<Seq<char>> {
    ps.map_values(|p: (Seq<char>, Seq<char>)| p.0 + seq![','] + p.1)
}

/// A pair that survives being written and read back: no comma or newline
/// in the first name, no newline in the second, which does not end with a
/// carriage return.
pub open spec fn writable_pair(p: (Seq<char>, Seq<char>)) -> bool {
    &&& !p.0.contains(',')
    &&& !p.0.contains('\n')
    &&& !p.1.contains('\n')
    &&& !(p.1.len() > 0 && p.1.last() == '\r')
}

proof fn lemma_line_state_append(x: Seq<char>, l: Seq<char>)
    requires
        !l.contains('\n'),
    ensures
        line_state(x + l) == (line_state(x).0, line_state(x).1 + l),
    decreases l.len(),
{
    if l.len() == 0 {
        assert(x + l =~= x);
        assert(line_state(x).1 + l =~= line_state(x).1);
    } else {
        let l0 = l.drop_last();
        assert(!l0.contains('\n')) by {
            if l0.contains('\n') {
                let k = choose|k: int| 0 <= k < l0.len() && l0[k] == '\n';
                assert(l[k] == '\n');
            }
        }
        lemma_line_state_append(x, l0);
        assert((x + l).drop_last() =~= x + l0);
        assert((x + l).last() == l.last());
        assert(l.last() != '\n') by {
            assert(l[l.len() - 1] == l.last());
        }
        assert(line_state(x).1 + l0 + seq![l.last()] =~= line_state(x).1 + l);
    }
}

proof fn lemma_written_lines(ps: Seq<(Seq<char>, Seq<char>)>)
    requires
        forall|i: int| 0 <= i < ps.len() ==> writable_pair(#[trigger] ps[i]),
    ensures
        line_state(adjacency_text(ps)) == (pair_lines(ps), Seq::<char>::empty()),
    decreases ps.len(),
{
    if ps.len() == 0 {
        assert(pair_lines(ps) =~= Seq::<Seq<char>>::empty());
    } else {
        let prev = ps.drop_last();
        let p = ps.last();
        assert(writable_pair(ps[ps.len() - 1]));
        assert forall|i: int| 0 <= i < prev.len() implies writable_pair(#[trigger] prev[i]) by {
            assert(prev[i] == ps[i]);
        }
        lemma_written_lines(prev);
        let line = p.0 + seq![','] + p.1;
        assert(!line.contains('\n')) by {
            if line.contains('\n') {
                let k = choose|k: int| 0 <= k < line.len() && line[k] == '\n';
                if k < p.0.len() {
                    assert(p.0[k] == '\n');
                } else if k > p.0.len() {
                    assert(p.1[k - p.0.len() - 1] == '\n');
                }
            }
        }
        let x = adjacency_text(prev);
        assert(adjacency_text(ps) =~= (x + line) + seq!['\n']);
        lemma_line_state_append(x, line);
        assert(((x + line) + seq!['\n']).drop_last() =~= x + line);
        assert(Seq::<char>::empty() + line =~= line);
        assert(strip_cr(line) == line) by {
            if p.1.len() > 0 {
                assert(line.last() == p.1.last());
            } else {
                assert(line.last() == ',');
            }
        }
        assert(pair_lines(ps) =~= pair_lines(prev).push(line));
    }
}

proof fn lemma_read_pair_lines(ps: Seq<(Seq<char>, Seq<char>)>)
    requires
        forall|i: int| 0 <= i < ps.len() ==> writable_pair(#[trigger] ps[i]),
    ensures
        adjacency_pairs(pair_lines(ps)) == Ok::<Seq<(Seq<char>, Seq<char>)>, Seq<char>>(ps),
    decreases ps.len(),
{
    if ps.len() > 0 {
        let prev = ps.drop_last();
        let p = ps.last();
        assert(writable_pair(ps[ps.len() - 1]));
        assert forall|i: int| 0 <= i < prev.len() implies writable_pair(#[trigger] prev[i]) by {
            assert(prev[i] == ps[i]);
        }
        lemma_read_pair_lines(prev);
        assert(pair_lines(ps).drop_last() =~= pair_lines(prev));
        let line = p.0 + seq![','] + p.1;
        assert(pair_lines(ps).last() == line);
        lemma_comma_index(line);
        let k = p.0.len() as int;
        assert(line[k] == ',');
        assert(comma_index(line) == Some(k)) by {
            match comma_index(line) {
                Some(i) => {
                    if i < k {
                        assert(line[i] == p.0[i]);
                        assert(p.0.contains(','));
                    }
                },
                None => {},
            }
        }
        assert(line.subrange(0, k) =~= p.0);
        assert(line.subrange(k + 1, line.len() as int) =~= p.1);
        assert(prev.push((p.0, p.1)) =~= ps);
        assert(pair_lines(ps).len() > 0);
        assert(adjacency_pairs(pair_lines(ps)) == Ok::<Seq<(Seq<char>, Seq<char>)>, Seq<char>>(
            prev.push((line.subrange(0, k), line.subrange(k + 1, line.len() as int))),
        ));
    } else {
        assert(pair_lines(ps).len() == 0);
        assert(ps =~= Seq::<(Seq<char>, Seq<char>)>::empty());
    }
}

/// Reading back an adjacency list gives the pairs it was written from,
/// for pairs that can be written (see `writable_pair`).
pub proof fn lemma_adjacency_round_trip(ps: Seq<(Seq<char>, Seq<char>)>)
    requires
        forall|i: int| 0 <= i < ps.len() ==> writable_pair(#[trigger] ps[i]),
    ensures
        adjacency_pairs(text_lines(adjacency_text(ps))) == Ok::<Seq<(Seq<char>, Seq<char>)>, Seq<char>>(ps),
{
    lemma_written_lines(ps);
    lemma_read_pair_lines(ps);
}

proof fn lemma_adjacency_error_stays(lines: Seq<Seq<char>>, j: int)
    requires
        0 <= j <= lines.len(),
        adjacency_pairs(lines.subrange(0, j)) is Err,
    ensures
        adjacency_pairs(lines) == adjacency_pairs(lines.subrange(0, j)),
    decreases lines.len() - j,
{
    if j < lines.len() {
        let next = lines.subrange(0, j + 1);
        assert(next.drop_last() =~= lines.subrange(0, j));
        lemma_adjacency_error_stays(lines, j + 1);
    } else {
        assert(lines.subrange(0, j) =~= lines);
    }
}

/// The lines of a text (see `text_lines`).
fn lines_of(text: &str) -> (res: Vec<String>)
    ensures
        string_views(res@) == text_lines(text@),
{
    let n = text.unicode_len();
    let mut lines: Vec<String> = Vec::new();
    let mut cur = String::new();
    let mut i: usize = 0;
    while i < n
        invariant
            n == text@.len(),
            i <= n,
            (string_views(lines@), cur@) == line_state(text@.subrange(0, i as int)),
        decreases n - i,
    {
        let c = text.get_char(i);
        let ghost pre = text@.subrange(0, i as int);
        assert(text@.subrange(0, i + 1).drop_last() =~= pre);
        if c == '\n' {
            let m = cur.unicode_len();
            let line = if m > 0 && cur.get_char(m - 1) == '\r' {
                cur.substring_char(0, m - 1).to_owned()
            } else {
                cur
            };
            proof {
                if m > 0 && cur@.last() == '\r' {
                    assert(line@ =~= cur@.drop_last());
                }
            }
            let ghost before = lines@;
            lines.push(line);
            assert(string_views(lines@) =~= string_views(before).push(line@));
            cur = String::new();
        } else {
            push_char(&mut cur, c);
        }
        i = i + 1;
    }
    assert(text@.subrange(0, n as int) =~= text@);
    if cur.unicode_len() > 0 {
        let ghost before = lines@;
        lines.push(cur);
        assert(string_views(lines@) =~= string_views(before).push(cur@));
    }
    lines
}

/// A line split at its first comma, if it has one.
fn split_at_comma(l: &str) -> (res: Option<(String, String)>)
    ensures
        match comma_index(l@) {
            Some(k) => res is Some && res->Some_0.0@ == l@.subrange(0, k) && res->Some_0.1@ == l@.subrange(
                k + 1,
                l@.len() as int,
            ),
            None => res is None,
        },
{
    proof {
        lemma_comma_index(l@);
    }
    let n = l.unicode_len();
    let mut i: usize = 0;
    while i < n
        invariant
            n == l@.len(),
            i <= n,
            forall|j: int| 0 <= j < i ==> l@[j] != ',',
            match comma_index(l@) {
                Some(k) => 0 <= k < l@.len() && l@[k] == ',' && forall|j: int| 0 <= j < k ==> l@[j] != ',',
                None => forall|j: int| 0 <= j < l@.len() ==> l@[j] != ',',
            },
        decreases n - i,
    {
        if l.get_char(i) == ',' {
            proof {
                let k = comma_index(l@).unwrap();
                assert(!(k < i));
                assert(!(i < k));
            }
            let a = l.substring_char(0, i).to_owned();
            let b = l.substring_char(i + 1, n).to_owned();
            return Some((a, b));
        }
        i = i + 1;
    }
    None
}

/// Reads an adjacency list: one pair of province names per line, split at
/// the line's first comma. A line without a comma is an error that names
/// it (the first such line).
pub fn parse_adjacencies(text: &str) -> (res: Result<Vec<(String, String)>, MapError>)
    ensures
        match adjacency_pairs(text_lines(text@)) {
            Ok(ps) => res is Ok && pair_views(res->Ok_0@) == ps,
            Err(l) => res is Err && map_error_view(res->Err_0) == MapErrorView::AdjacencyLine(l),
        },
{
    let lines = lines_of(text);
    let ghost ls = string_views(lines@);
    let mut pairs: Vec<(String, String)> = Vec::new();
    let mut i: usize = 0;
    assert(ls.subrange(0, 0) =~= Seq::<Seq<char>>::empty());
    assert(pair_views(pairs@) =~= Seq::<(Seq<char>, Seq<char>)>::empty());
    while i < lines.len()
        invariant
            ls == string_views(lines@),
            ls == text_lines(text@),
            i <= lines@.len(),
            adjacency_pairs(ls.subrange(0, i as int)) == Ok::<Seq<(Seq<char>, Seq<char>)>, Seq<char>>(
                pair_views(pairs@),
            ),
        decreases lines@.len() - i,
    {
        let ghost pre = ls.subrange(0, i as int);
        let ghost next = ls.subrange(0, i + 1);
        assert(next.drop_last() =~= pre);
        assert(next.last() == lines@[i as int]@);
        match split_at_comma(lines[i].as_str()) {
            Some(p) => {
                let ghost before = pairs@;
                pairs.push(p);
                assert(pair_views(pairs@) =~= pair_views(before).push((p.0@, p.1@)));
            },
            None => {
                proof {
                    lemma_adjacency_error_stays(ls, i + 1);
                }
                return Err(MapError::AdjacencyLine(lines[i].clone()));
            },
        }
        i = i + 1;
    }
    assert(ls.subrange(0, i as int) =~= ls);
    Ok(pairs)
}

/// Writes an adjacency list: a line `a,b` for each pair.
pub fn format_adjacencies(pairs: &Vec<(String, String)>) -> (res: String)
    ensures
        res@ == adjacency_text(pair_views(pairs@)),
{
    let mut out = String::new();
    let mut i: usize = 0;
    while i < pairs.len()
        invariant
            i <= pairs@.len(),
            out@ == adjacency_text(pair_views(pairs@).subrange(0, i as int)),
        decreases pairs@.len() - i,
    {
        let ghost pv = pair_views(pairs@);
        assert(pv.subrange(0, i + 1).drop_last() =~= pv.subrange(0, i as int));
        assert(pv.subrange(0, i + 1).last() == (pairs@[i as int].0@, pairs@[i as int].1@));
        out.append(pairs[i].0.as_str());
        push_char(&mut out, ',');
        out.append(pairs[i].1.as_str());
        push_char(&mut out, '\n');
        assert(out@ =~= adjacency_text(pv.subrange(0, i + 1)));
        i = i + 1;
    }
    assert(pair_views(pairs@).subrange(0, i as int) =~= pair_views(pairs@));
    out
}

} // verus!
