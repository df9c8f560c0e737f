use vstd::prelude::*;

use crate::map_error::{map_error_view, MapError, MapErrorView};
use crate::svg::{element_view, get_attribute, spec_attribute, ElementView, XmlElement};

verus! {

/// An SVG `transform` attribute, its numbers still as text: none, a
/// translation by `(x_c, y_c)`, or the matrix that maps `(x, y)` to
/// `(x_dx * x + x_dy * y + x_c, y_dx * x + y_dy * y + y_c)`.
#[derive(Debug)]
pub enum TransformText {
    Empty,
    Translate { x_c: String, y_c: String },
    Matrix { x_dx: String, y_dy: String, x_dy: String, y_dx: String, x_c: String, y_c: String },
}

/// A transform as plain values: 0 none, 1 translation, 2 matrix; and its
/// numbers in the order of the fields.
pub type TransformView = (int, Seq<Seq<char>>);

pub open spec fn transform_view(t: TransformText) -> TransformView {
    match t {
        TransformText::Empty => (0, Seq::empty()),
        TransformText::Translate { x_c, y_c } => (1, seq![x_c@, y_c@]),
        TransformText::Matrix { x_dx, y_dy, x_dy, y_dx, x_c, y_c } => (
            2,
            seq![x_dx@, y_dy@, x_dy@, y_dx@, x_c@, y_c@],
        ),
    }
}

pub const TRANSLATE_PATTERN: &'static str = r"^\s*translate\(([^,]*),([^,]*)\)\s*$";

pub const MATRIX_PATTERN: &'static str = r"^\s*matrix\(([^,]*),([^,]*),([^,]*),([^,]*),([^,]*),([^,]*)\)\s*$";

/// The groups of the first match of a regular expression in a text:
/// `Err` when the pattern does not compile, `None` when nothing matches,
/// and otherwise each group's text (`None` for a group not in the match),
/// group 0 being the whole match.
pub uninterp spec fn regex_captures(pattern: Seq<char>, text: Seq<char>) -> Result<
    Option<Seq<Option<Seq<char>>>>,
    (),
>;

pub open spec fn text_view(o: Option<String>) -> Option<Seq<char>> {
    match o {
        Some(s) => Some(s@),
        None => None,
    }
}

pub open spec fn groups_view(v: Seq<Option<String>>) -> Seq<Option<Seq<char>>> {
    v.map_values(|g: Option<String>| text_view(g))
}

pub open spec fn captures_view(c: Option<Vec<Option<String>>>) -> Option<Seq<Option<Seq<char>>>> {
    match c {
        Some(v) => Some(groups_view(v@)),
        None => None,
    }
}

pub open spec fn transform_option_view(t: Option<TransformText>) -> Option<TransformView> {
    match t {
        Some(x) => Some(transform_view(x)),
        None => None,
    }
}

/// `Regex::new(pattern)` and then `Regex::captures(text)` (regex crate),
/// the groups taken by `Captures::iter` as owned text. Claimed: the result
/// is `regex_captures` of the two texts, and a match has group 0, the whole
/// match, as the documentation of `Captures::iter` says.
#[verifier::external_body]
fn find_captures(pattern: &str, text: &str) -> (res: Result<Option<Vec<Option<String>>>, ()>)
    ensures
        match res {
            Ok(c) => regex_captures(pattern@, text@) == Ok::<Option<Seq<Option<Seq<char>>>>, ()>(
                captures_view(c),
            ),
            Err(_) => regex_captures(pattern@, text@) == Err::<Option<Seq<Option<Seq<char>>>>, ()>(()),
        },
        res matches Ok(Some(v)) ==> v@.len() >= 1 && v@[0] is Some,
{
    match regex::Regex::new(pattern) {
        Ok(re) => Ok(
            re.captures(text).map(
                |c| c.iter().map(|m| m.map(|m| m.as_str().to_string())).collect(),
            ),
        ),
        Err(_) => Err(()),
    }
}

/// Group `i` of the groups, if it took part in the match.
pub open spec fn group(g: Seq<Option<Seq<char>>>, i: int) -> Option<Seq<char>> {
    if 0 <= i < g.len() {
        g[i]
    } else {
        None
    }
}

/// The transform read from the groups of a match of `TRANSLATE_PATTERN`
/// (`matrix` false: groups 1 and 2) or of `MATRIX_PATTERN` (groups 1 to 6,
/// which are `x_dx`, `y_dx`, `x_dy`, `y_dy`, `x_c`, `y_c` in turn); `None`
/// when there is no match or a group is missing.
pub open spec fn spec_from_captures(matrix: bool, caps: Option<Seq<Option<Seq<char>>>>) -> Option<
    TransformView,
> {
    match caps {
        None => None,
        Some(g) => if !matrix {
            if group(g, 1) is Some && group(g, 2) is Some {
                Some((1, seq![group(g, 1).unwrap(), group(g, 2).unwrap()]))
            } else {
                None
            }
        } else {
            if group(g, 1) is Some && group(g, 2) is Some && group(g, 3) is Some && group(g, 4) is Some
                && group(g, 5) is Some && group(g, 6) is Some {
                Some(
                    (
                        2,
                        seq![
                            group(g, 1).unwrap(),
                            group(g, 4).unwrap(),
                            group(g, 3).unwrap(),
                            group(g, 2).unwrap(),
                            group(g, 5).unwrap(),
                            group(g, 6).unwrap(),
                        ],
                    ),
                )
            } else {
                None
            }
        },
    }
}

fn group_text(g: &Vec<Option<String>>, i: usize) -> (res: Option<String>)
    ensures
        text_view(res) == group(groups_view(g@), i as int),
{
    if i < g.len() {
        match &g[i] {
            Some(s) => Some(s.clone()),
            None => None,
        }
    } else {
        None
    }
}

/// Reads a transform from the groups of a regular expression match (see
/// `spec_from_captures`).
pub fn transform_from_captures(matrix: bool, caps: Option<Vec<Option<String>>>) -> (res: Option<
    TransformText,
>)
    ensures
        transform_option_view(res) == spec_from_captures(matrix, captures_view(caps)),
{
    let g = match caps {
        None => {
            return None;
        },
        Some(g) => g,
    };
    if !matrix {
        match (group_text(&g, 1), group_text(&g, 2)) {
            (Some(x_c), Some(y_c)) => Some(TransformText::Translate { x_c, y_c }),
            _ => None,
        }
    } else {
        let a = group_text(&g, 1);
        let b = group_text(&g, 2);
        let c = group_text(&g, 3);
        let d = group_text(&g, 4);
        let e = group_text(&g, 5);
        let f = group_text(&g, 6);
        match (a, b, c, d, e, f) {
            (Some(x_dx), Some(y_dx), Some(x_dy), Some(y_dy), Some(x_c), Some(y_c)) => Some(
                TransformText::Matrix { x_dx, y_dy, x_dy, y_dx, x_c, y_c },
            ),
            _ => None,
        }
    }
}

/// Whether `p` starts `s`.
pub fn starts_with(s: &str, p: &str) -> (res: bool)
    ensures
        res == p@.is_prefix_of(s@),
{
    let n = p.unicode_len();
    if n > s.unicode_len() {
        return false;
    }
    let mut i: usize = 0;
    while i < n
        invariant
            n == p@.len(),
            n <= s@.len(),
            i <= n,
            forall|j: int| 0 <= j < i ==> p@[j] == s@[j],
        decreases n - i,
    {
        if p.get_char(i) != s.get_char(i) {
            return false;
        }
        i = i + 1;
    }
    assert(p@ =~= s@.subrange(0, n as int));
    true
}

/// The transform a `transform` attribute's text gives: none for an empty
/// text; a translation or a matrix, read with `TRANSLATE_PATTERN` or
/// `MATRIX_PATTERN`, for a text that starts with `translate` or `matrix`;
/// `None` for anything else or where the pattern does not match.
pub open spec fn spec_transform_of(s: Seq<char>) -> Option<TransformView> {
    if s.len() == 0 {
        Some((0, Seq::empty()))
    } else if "translate"@.is_prefix_of(s) {
        match regex_captures(TRANSLATE_PATTERN@, s) {
            Ok(c) => spec_from_captures(false, c),
            Err(_) => None,
        }
    } else if "matrix"@.is_prefix_of(s) {
        match regex_captures(MATRIX_PATTERN@, s) {
            Ok(c) => spec_from_captures(true, c),
            Err(_) => None,
        }
    } else {
        None
    }
}

/// Reads the transform of a `transform` attribute's text (see
/// `spec_transform_of`); `MapError::Transform` with the text when it
/// cannot be read.
pub fn transform_of(s: &str) -> (res: Result<TransformText, MapError>)
    ensures
        match spec_transform_of(s@) {
            Some(t) => res is Ok && transform_view(res->Ok_0) == t,
            None => res is Err && res->Err_0 is Transform && res->Err_0->Transform_0@ == s@,
        },
{
    if s.unicode_len() == 0 {
        return Ok(TransformText::Empty);
    }
    let (matrix, pattern) = if starts_with(s, "translate") {
        (false, TRANSLATE_PATTERN)
    } else if starts_with(s, "matrix") {
        (true, MATRIX_PATTERN)
    } else {
        return Err(MapError::Transform(s.to_owned()));
    };
    let found = match find_captures(pattern, s) {
        Ok(c) => transform_from_captures(matrix, c),
        Err(_) => None,
    };
    match found {
        Some(t) => Ok(t),
        None => Err(MapError::Transform(s.to_owned())),
    }
}

/// The transform of an element, or the error reading it gives (see
/// `get_transform`).
pub open spec fn transform_result(e: ElementView) -> Result<TransformView, MapErrorView> {
    match spec_attribute(e, "transform"@) {
        Err(a) => Err(MapErrorView::Attribute("transform"@, a)),
        Ok(None) => Ok((0, Seq::empty())),
        Ok(Some(s)) => match spec_transform_of(s) {
            Some(t) => Ok(t),
            None => Err(MapErrorView::Transform(s)),
        },
    }
}

/// The transform of an SVG element (`Transform::get_transform`): none
/// without a `transform` attribute; `MapError::Attribute` when the
/// attribute cannot be read; otherwise as `transform_of`.
pub fn get_transform(e: &XmlElement) -> (res: Result<TransformText, MapError>)
    ensures
        match spec_attribute(element_view(*e), "transform"@) {
            Err(a) => res is Err && res->Err_0 is Attribute && res->Err_0->Attribute_0@ == "transform"@
                && res->Err_0->Attribute_1 == a,
            Ok(None) => res is Ok && res->Ok_0 is Empty,
            Ok(Some(s)) => match spec_transform_of(s) {
                Some(t) => res is Ok && transform_view(res->Ok_0) == t,
                None => res is Err && res->Err_0 is Transform && res->Err_0->Transform_0@ == s,
            },
        },
        match res {
            Ok(t) => transform_result(element_view(*e)) == Ok::<TransformView, MapErrorView>(transform_view(t)),
            Err(err) => transform_result(element_view(*e)) == Err::<TransformView, MapErrorView>(
                map_error_view(err),
            ),
        },
{
    match get_attribute(e, "transform") {
        Err(a) => Err(MapError::Attribute(String::from_str("transform"), a)),
        Ok(None) => Ok(TransformText::Empty),
        Ok(Some(s)) => transform_of(s.as_str()),
    }
}

} // verus!
