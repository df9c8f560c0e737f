use vstd::prelude::*;

use crate::map_error::PathError;
use crate::text::{ascii_lower_char, lower_char};

verus! {

/// The offset a path command moves by, as the text of its coordinates:
/// vertical and horizontal commands give one coordinate, the others two.
#[derive(Debug)]
pub enum PathOffset {
    Vertical(String),
    Horizontal(String),
    Both(String, String),
}

/// A step of an SVG path: a command (in the case it was written) with the
/// last argument it was given, or the closing of the current polygon
/// (back to its first point).
#[derive(Debug)]
pub enum PathStep {
    Point(char, PathOffset),
    Close,
}

/// A path step as plain values: 0 point, 1 close; the command; the offset
/// kind (0 vertical, 1 horizontal, 2 both) and its texts.
pub type StepView = (int, char, int, Seq<char>, Seq<char>);

pub open spec fn step_view(s: PathStep) -> StepView {
    match s {
        PathStep::Point(c, PathOffset::Vertical(y)) => (0, c, 0, Seq::empty(), y@),
        PathStep::Point(c, PathOffset::Horizontal(x)) => (0, c, 1, x@, Seq::empty()),
        PathStep::Point(c, PathOffset::Both(x, y)) => (0, c, 2, x@, y@),
        PathStep::Close => (1, ' ', 0, Seq::empty(), Seq::empty()),
    }
}

pub open spec fn steps_view(v: Seq<PathStep>) -> Seq<StepView> {
    v.map_values(|s: PathStep| step_view(s))
}

/// The parts of `s` between spaces (`str::split(" ")`), empty parts
/// included.
pub open spec fn split_spaces(s: Seq<char>) -> Seq<Seq<char>>
    decreases s.len(),
{
    if s.len() == 0 {
        seq![Seq::empty()]
    } else {
        let p = split_spaces(s.drop_last());
        if s.last() == ' ' {
            p.push(Seq::empty())
        } else {
            p.update(p.len() - 1, p.last().push(s.last()))
        }
    }
}

pub proof fn lemma_split_spaces_nonempty(s: Seq<char>)
    ensures
        split_spaces(s).len() >= 1,
    decreases s.len(),
{
    if s.len() > 0 {
        lemma_split_spaces_nonempty(s.drop_last());
    }
}

pub open spec fn is_ascii_alpha(c: char) -> bool {
    ('a' <= c && c <= 'z') || ('A' <= c && c <= 'Z')
}

/// A part that starts with a letter and goes on is a command letter
/// followed by its first argument (as in `m20,70`).
pub open spec fn expand_token(t: Seq<char>) -> Seq<Seq<char>> {
    if t.len() > 1 && is_ascii_alpha(t[0]) {
        seq![t.subrange(0, 1), t.subrange(1, t.len() as int)]
    } else {
        seq![t]
    }
}

/// The tokens of a path: its parts, command letters split off.
pub open spec fn path_tokens(parts: Seq<Seq<char>>) -> Seq<Seq<char>>
    decreases parts.len(),
{
    if parts.len() == 0 {
        Seq::empty()
    } else {
        path_tokens(parts.drop_last()) + expand_token(parts.last())
    }
}

/// How many arguments a command takes (for the commands the parser knows).
pub open spec fn argument_count(lc: char) -> int {
    if lc == 'm' || lc == 'l' || lc == 'h' || lc == 'v' || lc == 't' {
        1
    } else if lc == 's' || lc == 'q' {
        2
    } else if lc == 'c' {
        3
    } else if lc == 'a' {
        4
    } else {
        0
    }
}

/// Whether a (lower-case) letter is a command the parser moves by.
pub open spec fn is_move_command(lc: char) -> bool {
    lc == 'm' || lc == 'c' || lc == 'l' || lc == 't' || lc == 's' || lc == 'q' || lc == 'a'
        || lc == 'v' || lc == 'h'
}

/// The index of the first comma of `t`, if any.
pub open spec fn comma_index(t: Seq<char>) -> Option<int>
    decreases t.len(),
{
    if t.len() == 0 {
        None
    } else if t[0] == ',' {
        Some(0)
    } else {
        match comma_index(t.drop_first()) {
            Some(i) => Some(i + 1),
            None => None,
        }
    }
}

pub proof fn lemma_comma_index(t: Seq<char>)
    ensures
        match comma_index(t) {
            Some(i) => 0 <= i < t.len() && t[i] == ',' && forall|j: int| 0 <= j < i ==> t[j] != ',',
            None => forall|j: int| 0 <= j < t.len() ==> t[j] != ',',
        },
    decreases t.len(),
{
    if t.len() > 0 && t[0] != ',' {
        lemma_comma_index(t.drop_first());
        assert forall|j: int| 1 <= j < t.len() implies t[j] == t.drop_first()[j - 1] by {}
    }
}

/// Prepends `out` to a successful result.
pub open spec fn prepend(out: Seq<StepView>, r: Result<Seq<StepView>, PathError>) -> Result<Seq<StepView>, PathError> {
    match r {
        Ok(x) => Ok(out + x),
        Err(e) => Err(e),
    }
}

/// The steps of a path from token `i` on, given the current command, the
/// number of arguments it takes and whether the current polygon has a
/// point; or the error the path stops at.
pub open spec fn path_steps(toks: Seq<Seq<char>>, i: int, command: Option<char>, expected: int, has_start: bool) -> Result<Seq<StepView>, PathError>
    decreases toks.len() - i, 1int,
{
    if i < 0 || i >= toks.len() {
        Ok(Seq::empty())
    } else if toks[i].len() > 0 && is_ascii_alpha(toks[i][0]) {
        let c = toks[i][0];
        let lc = ascii_lower_char(c);
        if lc == 'z' {
            if !has_start {
                Err(PathError::CloseWithoutStart)
            } else {
                prepend(seq![(1, ' ', 0, Seq::empty(), Seq::empty())], path_steps(toks, i + 1, Some(c), expected, false))
            }
        } else if argument_count(lc) == 0 {
            Err(PathError::UnknownCommand(c))
        } else {
            path_arguments(toks, i + 1, Some(c), argument_count(lc), has_start)
        }
    } else {
        path_arguments(toks, i, command, expected, has_start)
    }
}

/// The steps of a path whose arguments start at token `j`.
pub open spec fn path_arguments(toks: Seq<Seq<char>>, j: int, command: Option<char>, expected: int, has_start: bool) -> Result<Seq<StepView>, PathError>
    decreases toks.len() - j, 0int,
{
    if command == Some('z') {
        Err(PathError::ArgumentsAfterClose)
    } else {
        let k = if expected >= 1 { j + expected - 1 } else { j };
        if k >= toks.len() || j < 0 {
            Err(PathError::MissingArguments)
        } else if command is None {
            Err(PathError::NoCommand)
        } else {
            let c = command.unwrap();
            let lc = ascii_lower_char(c);
            let t = toks[k];
            let off: Option<(int, Seq<char>, Seq<char>)> = if lc == 'v' {
                Some((0, Seq::empty(), t))
            } else if lc == 'h' {
                Some((1, t, Seq::empty()))
            } else {
                match comma_index(t) {
                    Some(ci) => Some((2, t.subrange(0, ci), t.subrange(ci + 1, t.len() as int))),
                    None => None,
                }
            };
            if off is None {
                Err(PathError::MissingComma)
            } else if !is_move_command(lc) {
                Err(PathError::UnknownCommand(lc))
            } else {
                let o = off.unwrap();
                prepend(seq![(0, c, o.0, o.1, o.2)], path_steps(toks, k + 1, command, expected, true))
            }
        }
    }
}

/// The steps of an SVG path (`d` attribute): its parts between single
/// spaces are split into tokens; each command letter is followed by its
/// arguments, of which only the last counts; `z` closes the polygon.
/// Errors: an empty part, and those of `path_steps`.
pub open spec fn spec_parse_path(d: Seq<char>) -> Result<Seq<StepView>, PathError> {
    let parts = split_spaces(d);
    if exists|i: int| 0 <= i < parts.len() && parts[i].len() == 0 {
        Err(PathError::EmptyToken)
    } else {
        path_steps(path_tokens(parts), 0, None, 0, false)
    }
}


/// The texts of `s` between the bounds in `v`.
pub open spec fn range_views(s: Seq<char>, v: Seq<(usize, usize)>) -> Seq<Seq<char>> {
    v.map_values(|r: (usize, usize)| s.subrange(r.0 as int, r.1 as int))
}

pub open spec fn ranges_within(v: Seq<(usize, usize)>, n: int) -> bool {
    forall|k: int| 0 <= k < v.len() ==> #[trigger] v[k].0 <= v[k].1 <= n
}

proof fn lemma_prepend_prepend(a: Seq<StepView>, b: Seq<StepView>, r: Result<Seq<StepView>, PathError>)
    ensures
        prepend(a, prepend(b, r)) == prepend(a + b, r),
{
    if let Ok(x) = r {
        assert(a + (b + x) =~= (a + b) + x);
    }
}

fn is_alpha(c: char) -> (res: bool)
    ensures
        res == is_ascii_alpha(c),
{
    ('a' <= c && c <= 'z') || ('A' <= c && c <= 'Z')
}

/// Appends the bounds of the tokens of the part `d[lo..hi]`.
fn push_part(d: &str, toks: &mut Vec<(usize, usize)>, lo: usize, hi: usize)
    requires
        lo <= hi <= d@.len(),
        ranges_within(old(toks)@, d@.len() as int),
    ensures
        ranges_within(final(toks)@, d@.len() as int),
        range_views(d@, final(toks)@) == range_views(d@, old(toks)@) + expand_token(
            d@.subrange(lo as int, hi as int),
        ),
{
    let ghost t = d@.subrange(lo as int, hi as int);
    if hi - lo > 1 && is_alpha(d.get_char(lo)) {
        toks.push((lo, lo + 1));
        toks.push((lo + 1, hi));
        assert(t.subrange(0, 1) =~= d@.subrange(lo as int, lo + 1));
        assert(t.subrange(1, t.len() as int) =~= d@.subrange(lo + 1, hi as int));
    } else {
        toks.push((lo, hi));
    }
    assert(range_views(d@, toks@) =~= range_views(d@, old(toks)@) + expand_token(t));
}

/// The bounds of the tokens of a path, or `None` where a part between
/// spaces is empty.
fn path_token_ranges(d: &str) -> (res: Option<Vec<(usize, usize)>>)
    ensures
        match res {
            None => exists|k: int|
                0 <= k < split_spaces(d@).len() && #[trigger] split_spaces(d@)[k].len() == 0,
            Some(v) => {
                &&& forall|k: int|
                    0 <= k < split_spaces(d@).len() ==> #[trigger] split_spaces(d@)[k].len() > 0
                &&& ranges_within(v@, d@.len() as int)
                &&& range_views(d@, v@) == path_tokens(split_spaces(d@))
            },
        },
{
    let n = d.unicode_len();
    let mut toks: Vec<(usize, usize)> = Vec::new();
    let mut start: usize = 0;
    let mut i: usize = 0;
    let mut has_empty = false;
    let ghost mut parts: Seq<Seq<char>> = Seq::empty();
    assert(d@.take(0) =~= Seq::<char>::empty());
    assert(range_views(d@, toks@) =~= Seq::<Seq<char>>::empty());
    while i < n
        invariant
            n == d@.len(),
            start <= i <= n,
            split_spaces(d@.take(i as int)) == parts.push(d@.subrange(start as int, i as int)),
            has_empty <==> exists|k: int| 0 <= k < parts.len() && #[trigger] parts[k].len() == 0,
            ranges_within(toks@, n as int),
            range_views(d@, toks@) == path_tokens(parts),
        decreases n - i,
    {
        let c = d.get_char(i);
        assert(d@.take(i + 1).drop_last() =~= d@.take(i as int));
        if c == ' ' {
            let ghost cur = d@.subrange(start as int, i as int);
            let ghost old_parts = parts;
            if start == i {
                has_empty = true;
            }
            push_part(d, &mut toks, start, i);
            proof {
                assert(old_parts.push(cur).drop_last() =~= old_parts);
                parts = old_parts.push(cur);
                assert(d@.subrange(i + 1, i + 1) =~= Seq::<char>::empty());
                if start == i {
                    assert(parts[old_parts.len() as int].len() == 0);
                } else if !has_empty {
                    assert forall|k: int| 0 <= k < parts.len() implies #[trigger] parts[k].len() != 0 by {
                        if k < old_parts.len() {
                            assert(parts[k] == old_parts[k]);
                        }
                    }
                } else {
                    let k = choose|k: int| 0 <= k < old_parts.len() && #[trigger] old_parts[k].len() == 0;
                    assert(parts[k].len() == 0);
                }
            }
            start = i + 1;
        } else {
            assert(d@.subrange(start as int, i + 1) =~= d@.subrange(start as int, i as int).push(c));
        }
        i = i + 1;
    }
    assert(d@.take(n as int) =~= d@);
    let ghost all_parts = parts.push(d@.subrange(start as int, n as int));
    if has_empty || start == n {
        proof {
            if has_empty {
                let k = choose|k: int| 0 <= k < parts.len() && #[trigger] parts[k].len() == 0;
                assert(all_parts[k].len() == 0);
            } else {
                assert(all_parts[parts.len() as int].len() == 0);
            }
        }
        return None;
    }
    push_part(d, &mut toks, start, n);
    assert(all_parts.drop_last() =~= parts);
    assert forall|k: int| 0 <= k < all_parts.len() implies #[trigger] all_parts[k].len() > 0 by {
        if k < parts.len() {
            assert(all_parts[k] == parts[k]);
        }
    }
    Some(toks)
}

/// The index of the first comma of `d[lo..hi]`, counted from `lo`.
fn first_comma(d: &str, lo: usize, hi: usize) -> (res: Option<usize>)
    requires
        lo <= hi <= d@.len(),
    ensures
        match res {
            Some(ci) => lo + ci < hi && comma_index(d@.subrange(lo as int, hi as int)) == Some(ci as int),
            None => comma_index(d@.subrange(lo as int, hi as int)) is None,
        },
{
    let ghost t = d@.subrange(lo as int, hi as int);
    proof {
        lemma_comma_index(t);
    }
    let mut p: usize = lo;
    while p < hi
        invariant
            lo <= p <= hi <= d@.len(),
            t == d@.subrange(lo as int, hi as int),
            forall|j: int| 0 <= j < p - lo ==> t[j] != ',',
            match comma_index(t) {
                Some(x) => 0 <= x < t.len() && t[x] == ',' && forall|j: int| 0 <= j < x ==> t[j] != ',',
                None => forall|j: int| 0 <= j < t.len() ==> t[j] != ',',
            },
        decreases hi - p,
    {
        if d.get_char(p) == ',' {
            assert(t[p - lo] == ',');
            return Some(p - lo);
        }
        p = p + 1;
    }
    None
}

/// How many arguments the (lower-case) command takes; 0 for a letter that
/// is no command.
fn arguments_of(lc: char) -> (res: usize)
    ensures
        res == argument_count(lc),
{
    if lc == 'm' || lc == 'l' || lc == 'h' || lc == 'v' || lc == 't' {
        1
    } else if lc == 's' || lc == 'q' {
        2
    } else if lc == 'c' {
        3
    } else if lc == 'a' {
        4
    } else {
        0
    }
}

/// The step made by the arguments that start at token `j`, and the token
/// after them.
fn argument_step(
    d: &str,
    toks: &Vec<(usize, usize)>,
    j: usize,
    command: Option<char>,
    expected: usize,
    has_start: bool,
) -> (res: Result<(PathStep, usize), PathError>)
    requires
        j <= toks.len(),
        expected <= 4,
        ranges_within(toks@, d@.len() as int),
    ensures
        match res {
            Ok((s, next)) => {
                &&& j < next <= toks.len()
                &&& path_arguments(range_views(d@, toks@), j as int, command, expected as int, has_start)
                    == prepend(
                    seq![step_view(s)],
                    path_steps(range_views(d@, toks@), next as int, command, expected as int, true),
                )
            },
            Err(e) => path_arguments(range_views(d@, toks@), j as int, command, expected as int, has_start)
                == Err::<Seq<StepView>, PathError>(e),
        },
{
    let ghost tv = range_views(d@, toks@);
    let is_close = match command {
        Some(cc) => cc == 'z',
        None => false,
    };
    if is_close {
        return Err(PathError::ArgumentsAfterClose);
    }
    let n = toks.len();
    if j >= n || (expected >= 1 && n - j < expected) {
        return Err(PathError::MissingArguments);
    }
    let k = if expected >= 1 { j + expected - 1 } else { j };
    let c = match command {
        Some(cc) => cc,
        None => {
            return Err(PathError::NoCommand);
        },
    };
    let lc = lower_char(c);
    let (lo, hi) = toks[k];
    assert(toks@[k as int].0 <= toks@[k as int].1 <= d@.len());
    assert(tv[k as int] == d@.subrange(lo as int, hi as int));
    let offset = if lc == 'v' {
        PathOffset::Vertical(d.substring_char(lo, hi).to_owned())
    } else if lc == 'h' {
        PathOffset::Horizontal(d.substring_char(lo, hi).to_owned())
    } else {
        match first_comma(d, lo, hi) {
            Some(ci) => {
                let x = d.substring_char(lo, lo + ci).to_owned();
                let y = d.substring_char(lo + ci + 1, hi).to_owned();
                let ghost t = d@.subrange(lo as int, hi as int);
                assert(x@ =~= t.subrange(0, ci as int));
                assert(y@ =~= t.subrange(ci + 1, t.len() as int));
                PathOffset::Both(x, y)
            },
            None => {
                return Err(PathError::MissingComma);
            },
        }
    };
    let moves = lc == 'm' || lc == 'c' || lc == 'l' || lc == 't' || lc == 's' || lc == 'q'
        || lc == 'a' || lc == 'v' || lc == 'h';
    if !moves {
        return Err(PathError::UnknownCommand(lc));
    }
    Ok((PathStep::Point(c, offset), k + 1))
}

/// Splits an SVG path (`d` attribute) into its steps; see `spec_parse_path`.
pub fn parse_path(d: &str) -> (res: Result<Vec<PathStep>, PathError>)
    ensures
        match res {
            Ok(v) => spec_parse_path(d@) == Ok::<Seq<StepView>, PathError>(steps_view(v@)),
            Err(e) => spec_parse_path(d@) == Err::<Seq<StepView>, PathError>(e),
        },
{
    let toks = match path_token_ranges(d) {
        None => {
            return Err(PathError::EmptyToken);
        },
        Some(t) => t,
    };
    let ghost tv = range_views(d@, toks@);
    let ghost goal = path_steps(tv, 0, None, 0, false);
    assert(spec_parse_path(d@) == goal);
    let mut out: Vec<PathStep> = Vec::new();
    let mut i: usize = 0;
    let mut command: Option<char> = None;
    let mut expected: usize = 0;
    let mut has_start = false;
    assert(steps_view(out@) =~= Seq::<StepView>::empty());
    assert(goal == prepend(steps_view(out@), goal)) by {
        if let Ok(x) = goal {
            assert(steps_view(out@) + x =~= x);
        }
    }
    while i < toks.len()
        invariant
            spec_parse_path(d@) == goal,
            tv == range_views(d@, toks@),
            ranges_within(toks@, d@.len() as int),
            i <= toks.len(),
            expected <= 4,
            goal == prepend(steps_view(out@), path_steps(tv, i as int, command, expected as int, has_start)),
        decreases toks.len() - i,
    {
        let (lo, hi) = toks[i];
        assert(toks@[i as int].0 <= toks@[i as int].1 <= d@.len());
        assert(tv[i as int] == d@.subrange(lo as int, hi as int));
        let mut j = i;
        let mut closed = false;
        if lo < hi && is_alpha(d.get_char(lo)) {
            let c = d.get_char(lo);
            assert(tv[i as int][0] == c);
            let lc = lower_char(c);
            if lc == 'z' {
                if !has_start {
                    assert(path_steps(tv, i as int, command, expected as int, has_start) == Err::<
                        Seq<StepView>,
                        PathError,
                    >(PathError::CloseWithoutStart));
                    return Err(PathError::CloseWithoutStart);
                }
                let ghost before = steps_view(out@);
                out.push(PathStep::Close);
                proof {
                    lemma_prepend_prepend(
                        before,
                        seq![step_view(PathStep::Close)],
                        path_steps(tv, i + 1, Some(c), expected as int, false),
                    );
                    assert(steps_view(out@) =~= before + seq![step_view(PathStep::Close)]);
                }
                command = Some(c);
                has_start = false;
                closed = true;
            } else {
                let count = arguments_of(lc);
                if count == 0 {
                    assert(path_steps(tv, i as int, command, expected as int, has_start) == Err::<
                        Seq<StepView>,
                        PathError,
                    >(PathError::UnknownCommand(c)));
                    return Err(PathError::UnknownCommand(c));
                }
                command = Some(c);
                expected = count;
                j = i + 1;
            }
        }
        if closed {
            i = i + 1;
        } else {
            let (step, next) = match argument_step(d, &toks, j, command, expected, has_start) {
                Ok(p) => p,
                Err(e) => {
                    return Err(e);
                },
            };
            let ghost before = steps_view(out@);
            let ghost sv = step_view(step);
            out.push(step);
            proof {
                lemma_prepend_prepend(before, seq![sv], path_steps(tv, next as int, command, expected as int, true));
                assert(steps_view(out@) =~= before + seq![sv]);
            }
            i = next;
            has_start = true;
        }
    }
    assert(steps_view(out@) + Seq::<StepView>::empty() =~= steps_view(out@));
    Ok(out)
}

/// The step a point command makes from its last argument `t`.
pub open spec fn point_step(c: char, t: Seq<char>) -> StepView {
    if c == 'v' {
        (0, c, 0, Seq::empty(), t)
    } else if c == 'h' {
        (0, c, 1, t, Seq::empty())
    } else {
        (0, c, 2, t.subrange(0, comma_index(t).unwrap()), t.subrange(comma_index(t).unwrap() + 1, t.len() as int))
    }
}

/// An argument token: not empty and not starting with a letter.
pub open spec fn argument_token(t: Seq<char>) -> bool {
    t.len() > 0 && !is_ascii_alpha(t[0])
}

/// After a move `M p`, a command with its arguments makes exactly one
/// point, from its last argument: `m`, `l`, `h`, `v` and `t` take one
/// argument, `s` and `q` two, `c` three and `a` four (so `M x,y q a,b c,d`
/// gives the points `x,y` and `c,d`).
pub proof fn lemma_command_takes_its_arguments(p: Seq<char>, cmd: char, args: Seq<Seq<char>>)
    requires
        argument_token(p),
        comma_index(p) is Some,
        ((cmd == 'm' || cmd == 'l' || cmd == 'h' || cmd == 'v' || cmd == 't') && args.len() == 1)
            || ((cmd == 's' || cmd == 'q') && args.len() == 2)
            || (cmd == 'c' && args.len() == 3)
            || (cmd == 'a' && args.len() == 4),
        argument_token(args.last()),
        cmd != 'v' && cmd != 'h' ==> comma_index(args.last()) is Some,
    ensures
        path_steps(seq![seq!['M'], p, seq![cmd]] + args, 0, None, 0, false) == Ok::<Seq<StepView>, PathError>(
            seq![(0, 'M', 2, p.subrange(0, comma_index(p).unwrap()), p.subrange(comma_index(p).unwrap() + 1, p.len() as int)), point_step(cmd, args.last())],
        ),
{
    let toks = seq![seq!['M'], p, seq![cmd]] + args;
    let n = args.len() as int;
    assert(toks.len() == 3 + n);
    assert(toks[0] == seq!['M']);
    assert(toks[1] == p);
    assert(toks[2] == seq![cmd]);
    assert(toks[2 + n] == args.last());
    assert(ascii_lower_char('M') == 'm');
    assert(ascii_lower_char(cmd) == cmd);
    assert(is_ascii_alpha('M'));
    assert(is_ascii_alpha(cmd));
    let last = path_steps(toks, 3 + n, Some(cmd), n, true);
    assert(last == Ok::<Seq<StepView>, PathError>(Seq::empty()));
    let second = path_arguments(toks, 3, Some(cmd), argument_count(cmd), true);
    assert(argument_count(cmd) == n);
    assert(second == prepend(seq![point_step(cmd, args.last())], last));
    assert(path_steps(toks, 2, Some('M'), 1, true) == second);
    let first = path_arguments(toks, 1, Some('M'), 1, false);
    assert(first == prepend(
        seq![(0, 'M', 2, p.subrange(0, comma_index(p).unwrap()), p.subrange(comma_index(p).unwrap() + 1, p.len() as int))],
        path_steps(toks, 2, Some('M'), 1, true),
    ));
    assert(path_steps(toks, 0, None, 0, false) == first);
    let a = (0, 'M', 2, p.subrange(0, comma_index(p).unwrap()), p.subrange(comma_index(p).unwrap() + 1, p.len() as int));
    let b = point_step(cmd, args.last());
    assert(seq![a] + (seq![b] + Seq::<StepView>::empty()) =~= seq![a, b]);
}

} // verus!
