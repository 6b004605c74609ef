use vstd::prelude::*;

use crate::errors::GraphError;

verus! {

/// `Direction` denotes the direction of an edge or the location of a vertex
/// on an edge. For
/// ```text
/// gremlin--knows-->rexter
/// ```
/// the edge is an `Out` edge for gremlin and an `In` edge for rexter;
/// gremlin is the `Out` (tail) vertex and rexter the `In` (head) vertex.
/// `Both` is a query-time selector meaning "both endpoints"; it is never the
/// stored direction of an endpoint pointer.
#[derive(Clone, Copy, Debug, PartialEq, Eq, Structural)]
pub enum Direction {
    /// An outgoing direction: the tail side of an edge.
    Out,
    /// An incoming direction: the head side of an edge.
    In,
    /// Either direction (`In` or `Out`).
    Both,
}

/// The inverse of a direction: `Out` and `In` swap, `Both` is its own
/// opposite.
pub open spec fn spec_opposite(d: Direction) -> Direction {
    match d {
        Direction::Out => Direction::In,
        Direction::In => Direction::Out,
        Direction::Both => Direction::Both,
    }
}

/// The code of a character with its upper-case mapping folded in: the
/// ASCII lower-case letters map to their upper-case counterparts, and the
/// dotless i (U+0131, the one further character whose Unicode upper case
/// is a letter of the recognized tokens) maps to `I`; every other
/// character keeps its own code.
pub open spec fn upper_code(c: char) -> int {
    if 97 <= c as int && c as int <= 122 {
        c as int - 32
    } else if c as int == 0x131 {
        73
    } else {
        c as int
    }
}

/// The two sequences are equal once letter case is folded away.
pub open spec fn matches_token(s: Seq<char>, t: Seq<char>) -> bool {
    s.len() == t.len() && forall|i: int| 0 <= i < s.len() ==> upper_code(s[i]) == upper_code(t[i])
}

/// What parsing a direction string returns: `In` for the tokens `TO` and
/// `IN`, `Out` for `FROM` and `OUT`, all case-insensitive, and
/// `InvalidDirectionToken` for every other string.
pub open spec fn spec_parse(s: Seq<char>) -> Result<Direction, GraphError> {
    if matches_token(s, seq!['T', 'O']) {
        Ok(Direction::In)
    } else if matches_token(s, seq!['F', 'R', 'O', 'M']) {
        Ok(Direction::Out)
    } else if matches_token(s, seq!['I', 'N']) {
        Ok(Direction::In)
    } else if matches_token(s, seq!['O', 'U', 'T']) {
        Ok(Direction::Out)
    } else {
        Err(GraphError::InvalidDirectionToken)
    }
}

impl Direction {
    /// The actual direction of a stored edge endpoint may only be `Out` or
    /// `In`, as listed here; `Both` is excluded because it is a query-time
    /// concept, never a persisted one.
    pub fn proper() -> (r: [Direction; 2])
        ensures
            r@ == seq![Direction::Out, Direction::In],
    {
        let r = [Direction::Out, Direction::In];
        proof {
            assert(r@ =~= seq![Direction::Out, Direction::In]);
        }
        r
    }

    /// Friendly alias to `Direction::Out`.
    pub fn from() -> (r: Direction)
        ensures
            r == Direction::Out,
    {
        Direction::Out
    }

    /// Friendly alias to `Direction::In`.
    pub fn to() -> (r: Direction)
        ensures
            r == Direction::In,
    {
        Direction::In
    }

    /// The opposite representation of this direction.
    pub fn opposite(&self) -> (r: Direction)
        ensures
            r == spec_opposite(*self),
    {
        match self {
            Direction::Out => Direction::In,
            Direction::In => Direction::Out,
            Direction::Both => Direction::Both,
        }
    }

    /// Parses a direction from the case-insensitive tokens `TO`, `FROM`,
    /// `IN` and `OUT`: a string is accepted exactly when upper-casing each
    /// of its characters yields a token, so `"to"`, `"To"` and the dotless
    /// `"\u{131}n"` all parse. Any other string is rejected with
    /// `InvalidDirectionToken` returned to the caller.
    pub fn parse(s: &str) -> (r: Result<Direction, GraphError>)
        ensures
            r == spec_parse(s@),
    {
        proof {
            reveal_strlit("TO");
            reveal_strlit("FROM");
            reveal_strlit("IN");
            reveal_strlit("OUT");
            assert("TO"@ =~= seq!['T', 'O']);
            assert("FROM"@ =~= seq!['F', 'R', 'O', 'M']);
            assert("IN"@ =~= seq!['I', 'N']);
            assert("OUT"@ =~= seq!['O', 'U', 'T']);
        }
        if token_match(s, "TO") {
            Ok(Direction::In)
        } else if token_match(s, "FROM") {
            Ok(Direction::Out)
        } else if token_match(s, "IN") {
            Ok(Direction::In)
        } else if token_match(s, "OUT") {
            Ok(Direction::Out)
        } else {
            Err(GraphError::InvalidDirectionToken)
        }
    }
}

/// `opposite` is an involution: applying it twice gives back the original
/// direction, for every direction.
pub proof fn lemma_opposite_involutive(d: Direction)
    ensures
        spec_opposite(spec_opposite(d)) == d,
{
}

/// The code of `c` with its upper-case mapping folded in.
fn fold_upper(c: char) -> (r: u32)
    ensures
        r as int == upper_code(c),
{
    let code = c as u32;
    if 97 <= code && code <= 122 {
        code - 32
    } else if code == 0x131 {
        73
    } else {
        code
    }
}

/// Whether `s` equals `t` up to ASCII case.
fn token_match(s: &str, t: &str) -> (r: bool)
    ensures
        r == matches_token(s@, t@),
{
    let n = s.unicode_len();
    let m = t.unicode_len();
    if n != m {
        return false;
    }
    let mut i: usize = 0;
    while i < n
        invariant
            n == s@.len(),
            n == t@.len(),
            i <= n,
            forall|j: int| 0 <= j < i ==> upper_code(s@[j]) == upper_code(t@[j]),
        decreases n - i,
    {
        let a = fold_upper(s.get_char(i));
        let b = fold_upper(t.get_char(i));
        if a != b {
            return false;
        }
        i += 1;
    }
    true
}

} // verus!
