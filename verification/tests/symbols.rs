use matching_pipeline::quantifiers::{AtLeast, WithQuantifier};
use matching_pipeline::{MatchingPipeline, PipelineError, Symbol, SymbolGroup};

#[derive(Debug, Clone, PartialEq)]
enum Token {
    Word(String),
    Number(i64),
    Comma,
}

impl Symbol for Token {
    fn same_as(&self, other: &Self) -> bool {
        self == other
    }

    fn duplicate(&self) -> Self {
        self.clone()
    }
}

fn tokens() -> Vec<Token> {
    vec![
        Token::Word(String::from("sum")),
        Token::Number(1),
        Token::Comma,
        Token::Number(2),
        Token::Comma,
        Token::Word(String::from("end")),
    ]
}

#[test]
fn char_is_a_symbol() {
    assert!('a'.same_as(&'a'));
    assert!(!'a'.same_as(&'b'));
    assert_eq!('x'.duplicate(), 'x');
}

#[test]
fn a_pipeline_over_tokens() {
    let sum = Token::Word(String::from("sum"));
    let pipeline = MatchingPipeline::new(tokens()).expect_symbol(&sum).unwrap();
    assert_eq!(pipeline.matched(), &[sum.clone()]);
    assert_eq!(pipeline.offset(), 1);

    let pipeline = pipeline
        .with_quantifier(AtLeast(1), |p| {
            p.expect_predicate(|t: &Token| matches!(t, Token::Number(_)))?
                .expect_symbol(&Token::Comma)
        })
        .unwrap();
    assert_eq!(pipeline.offset(), 5);
    assert_eq!(pipeline.unmatched(), &[Token::Word(String::from("end"))]);

    let result = pipeline.expect_symbol(&Token::Comma);
    assert_eq!(
        result,
        Err(PipelineError::WrongSymbol {
            expected: &Token::Comma,
            actual: Token::Word(String::from("end")),
        })
    );
}

#[test]
fn errors_over_tokens_read_in_their_debug_form() {
    let error = MatchingPipeline::new(tokens()).expect_symbol(&Token::Comma).unwrap_err();
    assert_eq!(error.message(), "Expected Comma but instead got Word(\"sum\")");

    let pattern = [Token::Number(1), Token::Comma];
    let error = MatchingPipeline::new(vec![Token::Number(2)]).expect_pattern(&pattern).unwrap_err();
    assert_eq!(
        error.message(),
        "Expected pattern [Number(1), Comma] but instead got [Number(2)]"
    );

    let separators = SymbolGroup::new(vec![Token::Comma], String::from("a separator"));
    let error = MatchingPipeline::new(tokens()).expect_group(&separators).unwrap_err();
    assert_eq!(error.message(), "Expected a separator but instead got Word(\"sum\")");
}

#[test]
fn match_until_over_tokens() {
    let delimiter = [Token::Comma, Token::Word(String::from("end"))];
    let pipeline = MatchingPipeline::new(tokens()).match_until(&delimiter, false);
    assert_eq!(pipeline.offset(), 4);
    assert_eq!(pipeline.unmatched(), &delimiter);
}
