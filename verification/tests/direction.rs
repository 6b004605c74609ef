use gremlin_core::direction::Direction;
use gremlin_core::errors::GraphError;

#[test]
fn opposite_swaps_out_and_in() {
    assert_eq!(Direction::Out.opposite(), Direction::In);
    assert_eq!(Direction::In.opposite(), Direction::Out);
    assert_eq!(Direction::Both.opposite(), Direction::Both);
}

#[test]
fn opposite_is_involutive() {
    for d in [Direction::Out, Direction::In, Direction::Both] {
        assert_eq!(d.opposite().opposite(), d);
    }
}

#[test]
fn proper_is_out_then_in() {
    let p = Direction::proper();
    assert_eq!(p.len(), 2);
    assert_eq!(p[0], Direction::Out);
    assert_eq!(p[1], Direction::In);
    assert!(!p.contains(&Direction::Both));
}

#[test]
fn aliases_name_the_endpoints() {
    assert_eq!(Direction::from(), Direction::Out);
    assert_eq!(Direction::to(), Direction::In);
}

#[test]
fn parse_accepts_the_four_tokens() {
    assert_eq!(Direction::parse("to"), Ok(Direction::In));
    assert_eq!(Direction::parse("FROM"), Ok(Direction::Out));
    assert_eq!(Direction::parse("in"), Ok(Direction::In));
    assert_eq!(Direction::parse("OUT"), Ok(Direction::Out));
}

#[test]
fn parse_is_case_insensitive() {
    assert_eq!(Direction::parse("To"), Ok(Direction::In));
    assert_eq!(Direction::parse("fRoM"), Ok(Direction::Out));
    assert_eq!(Direction::parse("IN"), Ok(Direction::In));
    assert_eq!(Direction::parse("out"), Ok(Direction::Out));
}

#[test]
fn parse_folds_the_dotless_i() {
    assert_eq!(Direction::parse("\u{131}n"), Ok(Direction::In));
    assert_eq!(Direction::parse("\u{131}N"), Ok(Direction::In));
    // The capital I with dot (U+0130) is already upper case and is no token.
    assert_eq!(
        Direction::parse("\u{130}N"),
        Err(GraphError::InvalidDirectionToken)
    );
}

#[test]
fn parse_rejects_everything_else() {
    assert_eq!(
        Direction::parse("sideways"),
        Err(GraphError::InvalidDirectionToken)
    );
    assert_eq!(Direction::parse(""), Err(GraphError::InvalidDirectionToken));
    assert_eq!(
        Direction::parse("TOO"),
        Err(GraphError::InvalidDirectionToken)
    );
    assert_eq!(
        Direction::parse("t o"),
        Err(GraphError::InvalidDirectionToken)
    );
}
