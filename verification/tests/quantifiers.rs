use matching_pipeline::quantifiers::{AtLeast, AtMost, Exactly, WithQuantifier, ZeroOrMore, ZeroOrOne};
use matching_pipeline::{begin_match, MatchingPipeline, PipelineError, PipelineResult};
use std::cell::Cell;

fn assert_pipeline(
    pipeline: &MatchingPipeline<char>,
    matched: &[char],
    unmatched: &[char],
    reached_eos: bool,
    offset: usize,
) {
    assert_eq!(pipeline.matched(), matched);
    assert_eq!(pipeline.unmatched(), unmatched);
    assert_eq!(pipeline.reached_eos(), reached_eos);
    assert_eq!(pipeline.offset(), offset);
}

#[test]
fn should_match_exactly_3() -> Result<(), PipelineError<'static, char>> {
    let result = begin_match("18a18b18c").with_quantifier(Exactly(3), |p| {
        p.expect_pattern(&['1', '8'])?.expect_any_of(&['a', 'b', 'c'])
    })?;

    assert_pipeline(&result, &['1', '8', 'a', '1', '8', 'b', '1', '8', 'c'], &[], true, 9);

    Ok(())
}

#[test]
fn quantifier_exactly_do_not_match() -> Result<(), PipelineError<'static, char>> {
    let result =
        begin_match("abaabaO").with_quantifier(Exactly(3), |p| p.expect_pattern(&['a', 'b', 'a']));

    let expected =
        Err(PipelineError::WrongPattern { expected: &['a', 'b', 'a'], actual: vec!['O'] });

    assert_eq!(result, expected);
    Ok(())
}

#[test]
fn quantifier_zero_or_one_with_trailing_expectation() -> Result<(), PipelineError<'static, char>> {
    let candidate1 = "abc";
    let candidate2 = "ab";
    let candidate3 = "ac";
    let candidate4 = "axc";

    let result1 = begin_match(candidate1)
        .expect_symbol(&'a')?
        .with_quantifier(ZeroOrOne, |p| p.expect_symbol(&'b'))?
        .expect_symbol(&'c')?;

    let result2 = begin_match(candidate2)
        .expect_symbol(&'a')?
        .with_quantifier(ZeroOrOne, |p| p.expect_symbol(&'b'))?
        .expect_symbol(&'c');

    let expected2 = Err(PipelineError::UnexpectedEos);

    let result3 = begin_match(candidate3)
        .expect_symbol(&'a')?
        .with_quantifier(ZeroOrOne, |p| p.expect_symbol(&'b'))?
        .expect_symbol(&'c')?;

    let result4 = begin_match(candidate4)
        .expect_symbol(&'a')?
        .with_quantifier(ZeroOrOne, |p| p.expect_symbol(&'b'))?
        .expect_symbol(&'c');

    let expected4 = Err(PipelineError::WrongSymbol { expected: &'c', actual: 'x' });

    assert_pipeline(&result1, &['a', 'b', 'c'], &[], true, 3);
    assert_eq!(result2, expected2);
    assert_pipeline(&result3, &['a', 'c'], &[], true, 2);
    assert_eq!(result4, expected4);

    Ok(())
}

#[test]
fn quantifier_zero_or_one_without_trailing_expectation() -> Result<(), PipelineError<'static, char>>
{
    let candidate1 = "abc";
    let candidate2 = "ab";
    let candidate3 = "ac";
    let candidate4 = "axc";

    let result1 = begin_match(candidate1)
        .expect_symbol(&'a')?
        .with_quantifier(ZeroOrOne, |p| p.expect_symbol(&'b'))?;

    let result2 = begin_match(candidate2)
        .expect_symbol(&'a')?
        .with_quantifier(ZeroOrOne, |p| p.expect_symbol(&'b'))?;

    let result3 = begin_match(candidate3)
        .expect_symbol(&'a')?
        .with_quantifier(ZeroOrOne, |p| p.expect_symbol(&'b'))?;

    let result4 = begin_match(candidate4)
        .expect_symbol(&'a')?
        .with_quantifier(ZeroOrOne, |p| p.expect_symbol(&'b'))?;

    assert_pipeline(&result1, &['a', 'b'], &['c'], false, 2);
    assert_pipeline(&result2, &['a', 'b'], &[], true, 2);
    assert_pipeline(&result3, &['a'], &['c'], false, 1);
    assert_pipeline(&result4, &['a'], &['x', 'c'], false, 1);

    Ok(())
}

#[test]
fn quantifier_at_least() -> Result<(), PipelineError<'static, char>> {
    let result1 = begin_match("abbbc")
        .expect_symbol(&'a')?
        .with_quantifier(AtLeast(3), |p| p.expect_symbol(&'b'))?
        .expect_symbol(&'c')?;

    let result2 = begin_match("abb")
        .expect_symbol(&'a')?
        .with_quantifier(AtLeast(3), |p| p.expect_symbol(&'b'));

    let expected2 = Err(PipelineError::UnexpectedEos);

    let result3 = begin_match("abx")
        .expect_symbol(&'a')?
        .with_quantifier(AtLeast(3), |p| p.expect_symbol(&'b'));

    let expected3 = Err(PipelineError::WrongSymbol { expected: &'b', actual: 'x' });

    let result4 = begin_match("abbbc")
        .expect_symbol(&'a')?
        .with_quantifier(AtLeast(1), |p| p.expect_symbol(&'b'))?
        .expect_symbol(&'c')?;

    let result5 = begin_match("abbc")
        .expect_symbol(&'a')?
        .with_quantifier(AtLeast(0), |p| p.expect_symbol(&'b'))?
        .expect_symbol(&'c')?;

    let result6 = begin_match("ac")
        .expect_symbol(&'a')?
        .with_quantifier(AtLeast(0), |p| p.expect_symbol(&'b'))?
        .expect_symbol(&'c')?;

    assert_pipeline(&result1, &['a', 'b', 'b', 'b', 'c'], &[], true, 5);
    assert_eq!(result2, expected2);
    assert_eq!(result3, expected3);
    assert_pipeline(&result4, &['a', 'b', 'b', 'b', 'c'], &[], true, 5);
    assert_pipeline(&result5, &['a', 'b', 'b', 'c'], &[], true, 4);
    assert_pipeline(&result6, &['a', 'c'], &[], true, 2);

    Ok(())
}

#[test]
fn quantifier_at_most() -> Result<(), PipelineError<'static, char>> {
    let result1 = begin_match("aab")
        .with_quantifier(AtMost(3), |p| p.expect_symbol(&'a'))?
        .expect_symbol(&'b')?;

    let result2 = begin_match("aaaax").with_quantifier(AtMost(3), |p| p.expect_symbol(&'a'))?;

    assert_pipeline(&result1, &['a', 'a', 'b'], &[], true, 3);
    assert_pipeline(&result2, &['a', 'a', 'a'], &['a', 'x'], false, 3);

    Ok(())
}

#[test]
fn exactly_once_is_the_sub_combinator() {
    for input in ["", "a", "b", "ab", "ba"] {
        let direct = begin_match(input).expect_symbol(&'a');
        let quantified =
            begin_match(input).with_quantifier(Exactly(1), |p| p.expect_symbol(&'a'));
        assert_eq!(quantified, direct);
    }
}

#[test]
fn exactly_hands_on_the_failure_of_the_first_attempt() {
    let result = begin_match("xaa").with_quantifier(Exactly(2), |p| p.expect_symbol(&'a'));
    assert_eq!(result, Err(PipelineError::WrongSymbol { expected: &'a', actual: 'x' }));
    let set = &['a', 'b'];
    let result = begin_match("abc").with_quantifier(Exactly(3), |p| p.expect_any_of(set));
    assert_eq!(result, Err(PipelineError::SymbolNotMatchAnyOf { expected: set, actual: 'c' }));
}

#[test]
fn exactly_on_an_input_that_runs_out() {
    let result = begin_match("aa").with_quantifier(Exactly(3), |p| p.expect_symbol(&'a'));
    assert_eq!(result, Err(PipelineError::UnexpectedEos));
}

#[test]
fn exactly_stops_at_its_count() {
    let result =
        begin_match("aaaa").with_quantifier(Exactly(2), |p| p.expect_symbol(&'a')).unwrap();
    assert_pipeline(&result, &['a', 'a'], &['a', 'a'], false, 2);
}

#[test]
fn zero_or_more_never_fails() {
    let result =
        begin_match("xyz").with_quantifier(ZeroOrMore, |p| p.expect_symbol(&'a')).unwrap();
    assert_pipeline(&result, &[], &['x', 'y', 'z'], false, 0);
    let result = begin_match("").with_quantifier(ZeroOrMore, |p| p.expect_symbol(&'a')).unwrap();
    assert_pipeline(&result, &[], &[], true, 0);
}

#[test]
fn zero_or_more_takes_all_it_can() {
    let result =
        begin_match("aaab").with_quantifier(ZeroOrMore, |p| p.expect_symbol(&'a')).unwrap();
    assert_pipeline(&result, &['a', 'a', 'a'], &['b'], false, 3);
    let result =
        begin_match("aaa").with_quantifier(ZeroOrMore, |p| p.expect_symbol(&'a')).unwrap();
    assert_pipeline(&result, &['a', 'a', 'a'], &[], true, 3);
}

#[test]
fn zero_or_more_gives_up_an_attempt_that_failed_half_way() {
    let result = begin_match("ababac")
        .with_quantifier(ZeroOrMore, |p| p.expect_symbol(&'a')?.expect_symbol(&'b'))
        .unwrap();
    assert_pipeline(&result, &['a', 'b', 'a', 'b'], &['a', 'c'], false, 4);
}

#[test]
fn at_least_hands_on_the_failure_that_came_too_early() {
    let result = begin_match("aab").with_quantifier(AtLeast(3), |p| p.expect_symbol(&'a'));
    assert_eq!(result, Err(PipelineError::WrongSymbol { expected: &'a', actual: 'b' }));
    let result = begin_match("aaab").with_quantifier(AtLeast(3), |p| p.expect_symbol(&'a')).unwrap();
    assert_pipeline(&result, &['a', 'a', 'a'], &['b'], false, 3);
    let result =
        begin_match("aaaaab").with_quantifier(AtLeast(3), |p| p.expect_symbol(&'a')).unwrap();
    assert_pipeline(&result, &['a', 'a', 'a', 'a', 'a'], &['b'], false, 5);
}

#[test]
fn at_most_stops_at_its_count() {
    let result = begin_match("aaaax").with_quantifier(AtMost(3), |p| p.expect_symbol(&'a')).unwrap();
    assert_pipeline(&result, &['a', 'a', 'a'], &['a', 'x'], false, 3);
    let result = begin_match("aaa").with_quantifier(AtMost(3), |p| p.expect_symbol(&'a')).unwrap();
    assert_pipeline(&result, &['a', 'a', 'a'], &[], true, 3);
    let result = begin_match("aaaa").with_quantifier(AtMost(1), |p| p.expect_symbol(&'a')).unwrap();
    assert_pipeline(&result, &['a'], &['a', 'a', 'a'], false, 1);
}

#[test]
fn at_most_hands_on_the_failure_of_the_first_attempt_only() {
    let result = begin_match("xaa").with_quantifier(AtMost(3), |p| p.expect_symbol(&'a'));
    assert_eq!(result, Err(PipelineError::WrongSymbol { expected: &'a', actual: 'x' }));
    let result = begin_match("").with_quantifier(AtMost(3), |p| p.expect_symbol(&'a'));
    assert_eq!(result, Err(PipelineError::UnexpectedEos));
    let result = begin_match("axa").with_quantifier(AtMost(3), |p| p.expect_symbol(&'a')).unwrap();
    assert_pipeline(&result, &['a'], &['x', 'a'], false, 1);
}

#[test]
fn zero_or_one_gives_up_an_attempt_that_failed_half_way() {
    let result = begin_match("abx")
        .with_quantifier(ZeroOrOne, |p| p.expect_symbol(&'a')?.expect_symbol(&'b')?.expect_symbol(&'c'))
        .unwrap();
    assert_pipeline(&result, &[], &['a', 'b', 'x'], false, 0);
}

#[test]
fn zero_or_one_then_a_symbol_on_an_exhausted_pipeline() {
    let result = begin_match("ab")
        .expect_symbol(&'a')
        .and_then(|p| p.with_quantifier(ZeroOrOne, |p| p.expect_symbol(&'b')))
        .unwrap();
    assert_pipeline(&result, &['a', 'b'], &[], true, 2);
    assert_eq!(result.expect_symbol(&'c'), Err(PipelineError::UnexpectedEos));
}

#[test]
fn quantifiers_nest() {
    let result = begin_match("ab,abb,a;")
        .with_quantifier(AtLeast(1), |p| {
            p.expect_symbol(&'a')?
                .with_quantifier(ZeroOrMore, |p| p.expect_symbol(&'b'))?
                .with_quantifier(ZeroOrOne, |p| p.expect_symbol(&','))
        })
        .unwrap();
    assert_pipeline(&result, &['a', 'b', ',', 'a', 'b', 'b', ',', 'a'], &[';'], false, 8);
}

#[test]
fn at_least_stops_where_nothing_is_left() {
    let result = begin_match("abc").with_quantifier(AtLeast(0), |p| Ok(p.consume())).unwrap();
    assert_pipeline(&result, &['a', 'b', 'c'], &[], true, 3);
    let result = begin_match("abc").with_quantifier(AtLeast(2), |p| Ok(p.consume())).unwrap();
    assert_pipeline(&result, &['a', 'b', 'c'], &[], true, 3);
    let result = begin_match("").with_quantifier(AtLeast(0), |p| Ok(p.consume())).unwrap();
    assert_pipeline(&result, &[], &[], true, 0);
}

#[test]
fn zero_or_more_stops_where_nothing_is_left() {
    let result = begin_match("abc").with_quantifier(ZeroOrMore, |p| Ok(p.consume())).unwrap();
    assert_pipeline(&result, &['a', 'b', 'c'], &[], true, 3);
    let result = begin_match("abc").with_quantifier(ZeroOrMore, |p| Ok(p.skip())).unwrap();
    assert_pipeline(&result, &[], &[], true, 3);
    let result = begin_match("a,b,c")
        .with_quantifier(ZeroOrMore, |p| Ok(p.match_until(&[','], true)))
        .unwrap();
    assert_pipeline(&result, &['a', ',', 'b', ',', 'c'], &[], true, 5);
}

#[test]
fn at_least_goes_on_at_the_end_until_its_count_is_met() {
    let calls = Cell::new(0);
    let result = begin_match("ab")
        .with_quantifier(AtLeast(5), |p| {
            calls.set(calls.get() + 1);
            Ok(p.consume())
        })
        .unwrap();
    assert_pipeline(&result, &['a', 'b'], &[], true, 2);
    assert_eq!(calls.get(), 5);

    let calls = Cell::new(0);
    let result = begin_match("").with_quantifier(AtLeast(3), |p| {
        calls.set(calls.get() + 1);
        p.expect_symbol(&'a')
    });
    assert_eq!(result, Err(PipelineError::UnexpectedEos));
    assert_eq!(calls.get(), 1);
}

#[test]
fn at_least_makes_no_attempt_where_nothing_is_left_and_the_count_is_met() {
    let calls = Cell::new(0);
    let counted = |p: MatchingPipeline<char>| -> PipelineResult<'static, char> {
        calls.set(calls.get() + 1);
        p.expect_symbol(&'a')
    };
    let result = begin_match("").with_quantifier(ZeroOrMore, &counted).unwrap();
    assert_pipeline(&result, &[], &[], true, 0);
    assert_eq!(calls.get(), 0);

    let result = begin_match("aa").with_quantifier(ZeroOrMore, &counted).unwrap();
    assert_pipeline(&result, &['a', 'a'], &[], true, 2);
    assert_eq!(calls.get(), 2);

    calls.set(0);
    let result = begin_match("aa").with_quantifier(AtLeast(2), &counted).unwrap();
    assert_pipeline(&result, &['a', 'a'], &[], true, 2);
    assert_eq!(calls.get(), 2);

    calls.set(0);
    let result = begin_match("aab").with_quantifier(AtLeast(1), &counted).unwrap();
    assert_pipeline(&result, &['a', 'a'], &['b'], false, 2);
    assert_eq!(calls.get(), 3);
}

#[test]
fn zero_or_more_over_a_sub_combinator_that_succeeds_at_the_end() {
    let lenient = |p: MatchingPipeline<char>| -> PipelineResult<'static, char> {
        if p.reached_eos() {
            Ok(p)
        } else {
            p.expect_symbol(&'a')
        }
    };
    let result = begin_match("b").with_quantifier(ZeroOrMore, lenient).unwrap();
    assert_pipeline(&result, &[], &['b'], false, 0);
    let result = begin_match("aab").with_quantifier(ZeroOrMore, lenient).unwrap();
    assert_pipeline(&result, &['a', 'a'], &['b'], false, 2);
    let result = begin_match("aa").with_quantifier(ZeroOrMore, lenient).unwrap();
    assert_pipeline(&result, &['a', 'a'], &[], true, 2);
    let result = begin_match("a").with_quantifier(AtLeast(3), lenient).unwrap();
    assert_pipeline(&result, &['a'], &[], true, 1);
}
