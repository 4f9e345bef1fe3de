use matching_pipeline::quantifiers::{AtLeast, AtMost, Exactly, WithQuantifier, ZeroOrMore, ZeroOrOne};
use matching_pipeline::{MatchingPipeline, PipelineError, PipelineResult};

/// Every sequence over `alphabet` of at most `longest` symbols.
fn sequences(alphabet: &[char], longest: usize) -> Vec<Vec<char>> {
    let mut all = vec![Vec::new()];
    let mut last = vec![Vec::new()];
    for _ in 0..longest {
        let mut next = Vec::new();
        for sequence in &last {
            for symbol in alphabet {
                let mut longer: Vec<char> = sequence.clone();
                longer.push(*symbol);
                next.push(longer);
            }
        }
        all.extend(next.iter().cloned());
        last = next;
    }
    all
}

fn pair<'a>(pipeline: MatchingPipeline<char>) -> PipelineResult<'a, char> {
    pipeline.expect_symbol(&'a')?.expect_any_of(&['a', 'b'])
}

fn single<'a>(pipeline: MatchingPipeline<char>) -> PipelineResult<'a, char> {
    pipeline.expect_symbol(&'a')
}

#[test]
fn match_until_agrees_with_stepping_by_hand() {
    let inputs = sequences(&['a', 'b', 'c'], 5);
    let delimiters = sequences(&['a', 'b'], 2);
    for input in &inputs {
        for delimiter in &delimiters {
            for match_delim in [false, true] {
                let mut by_hand = MatchingPipeline::new(input.clone());
                while !by_hand.reached_eos() {
                    if let Ok(found) = by_hand.clone().expect_pattern(delimiter) {
                        if match_delim {
                            by_hand = found;
                        }
                        break;
                    }
                    by_hand = by_hand.consume();
                }
                let at_once =
                    MatchingPipeline::new(input.clone()).match_until(delimiter, match_delim);
                assert_eq!(at_once, by_hand, "{input:?} until {delimiter:?}");
            }
        }
    }
}

#[test]
fn expect_pattern_agrees_with_expecting_each_symbol() {
    let inputs = sequences(&['a', 'b'], 4);
    let patterns = sequences(&['a', 'b'], 3);
    for input in &inputs {
        for pattern in &patterns {
            let whole = MatchingPipeline::new(input.clone()).expect_pattern(pattern);
            let mut by_hand = Ok(MatchingPipeline::new(input.clone()));
            for symbol in pattern {
                by_hand = by_hand.and_then(|p| p.expect_symbol(symbol));
            }
            match (whole, by_hand) {
                (Ok(whole), Ok(by_hand)) => assert_eq!(whole, by_hand),
                (Err(PipelineError::WrongPattern { expected, actual }), Err(_)) => {
                    assert_eq!(expected, pattern.as_slice());
                    let available = pattern.len().min(input.len());
                    assert_eq!(actual, input[..available].to_vec());
                }
                (whole, by_hand) => panic!("{input:?} {pattern:?}: {whole:?} {by_hand:?}"),
            }
        }
    }
}

#[test]
fn match_while_true_agrees_with_zero_or_more_over_the_predicate() {
    for input in sequences(&['a', 'b'], 6) {
        let greedy = MatchingPipeline::new(input.clone()).match_while_true(|c: &char| *c == 'a');
        let repeated = MatchingPipeline::new(input.clone())
            .with_quantifier(ZeroOrMore, |p| p.expect_predicate(|c: &char| *c == 'a'))
            .unwrap();
        assert_eq!(greedy, repeated, "{input:?}");
        let by_symbol =
            MatchingPipeline::new(input.clone()).with_quantifier(ZeroOrMore, single).unwrap();
        assert_eq!(greedy, by_symbol, "{input:?}");
    }
}

#[test]
fn match_until_eos_agrees_with_consuming_to_the_end() {
    for input in sequences(&['a', 'b'], 4) {
        let mut by_hand = MatchingPipeline::new(input.clone()).skip();
        while !by_hand.reached_eos() {
            by_hand = by_hand.consume();
        }
        let at_once = MatchingPipeline::new(input.clone()).skip().match_until_eos();
        assert_eq!(at_once, by_hand);
    }
}

#[test]
fn exactly_agrees_with_applying_in_a_row() {
    for input in sequences(&['a', 'b'], 6) {
        for count in 1..4 {
            let mut by_hand = Ok(MatchingPipeline::new(input.clone()));
            for _ in 0..count {
                by_hand = by_hand.and_then(pair);
            }
            let quantified = MatchingPipeline::new(input.clone()).with_quantifier(Exactly(count), pair);
            assert_eq!(quantified, by_hand, "{input:?} exactly {count}");
        }
    }
}

#[test]
fn zero_or_one_agrees_with_trying_on_a_snapshot() {
    for input in sequences(&['a', 'b'], 4) {
        let pipeline = MatchingPipeline::new(input.clone());
        let by_hand = match pair(pipeline.clone()) {
            Ok(next) => next,
            Err(_) => pipeline,
        };
        let quantified = MatchingPipeline::new(input.clone()).with_quantifier(ZeroOrOne, pair);
        assert_eq!(quantified, Ok(by_hand), "{input:?}");
    }
}

#[test]
fn at_least_agrees_with_counting_by_hand() {
    for input in sequences(&['a', 'b'], 6) {
        for count in 0..4 {
            let mut current = MatchingPipeline::new(input.clone());
            let mut successes = 0;
            let by_hand = loop {
                if successes >= count && current.reached_eos() {
                    break Ok(current);
                }
                match pair(current.clone()) {
                    Ok(next) => {
                        current = next;
                        successes += 1;
                    }
                    Err(_) if successes >= count => break Ok(current),
                    Err(error) => break Err(error),
                }
            };
            let quantified =
                MatchingPipeline::new(input.clone()).with_quantifier(AtLeast(count), pair);
            assert_eq!(quantified, by_hand, "{input:?} at least {count}");
            if count == 0 {
                let unbounded = MatchingPipeline::new(input.clone()).with_quantifier(ZeroOrMore, pair);
                assert_eq!(unbounded, by_hand, "{input:?}");
            }
        }
    }
}

#[test]
fn at_most_agrees_with_counting_by_hand() {
    for input in sequences(&['a', 'b'], 6) {
        for count in 1..4 {
            let mut current = MatchingPipeline::new(input.clone());
            let mut successes = 0;
            let by_hand = loop {
                if successes == count {
                    break Ok(current);
                }
                match pair(current.clone()) {
                    Ok(next) => {
                        current = next;
                        successes += 1;
                    }
                    Err(error) if successes == 0 => break Err(error),
                    Err(_) => break Ok(current),
                }
            };
            let quantified =
                MatchingPipeline::new(input.clone()).with_quantifier(AtMost(count), pair);
            assert_eq!(quantified, by_hand, "{input:?} at most {count}");
        }
    }
}

#[test]
fn every_state_partitions_the_input() {
    for input in sequences(&['a', 'b'], 5) {
        let steps: Vec<fn(MatchingPipeline<char>) -> MatchingPipeline<char>> = vec![
            |p| p.consume(),
            |p| p.clone().expect_symbol(&'a').unwrap_or(p),
            |p| p.clone().expect_pattern(&['a', 'b']).unwrap_or(p),
            |p| p.clone().expect_any_of(&['b']).unwrap_or(p),
            |p| p.match_while_true(|c: &char| *c == 'b'),
            |p| p.match_until(&['b', 'a'], true),
            |p| p.clone().with_quantifier(AtMost(2), single).unwrap_or(p),
            |p| p.match_until_eos(),
        ];
        for first in &steps[..6] {
            for second in &steps {
                let pipeline = second(first(MatchingPipeline::new(input.clone())));
                let mut all = pipeline.matched().to_vec();
                all.extend_from_slice(pipeline.unmatched());
                assert_eq!(all, input);
                assert_eq!(pipeline.offset(), pipeline.matched().len());
                assert_eq!(pipeline.reached_eos(), pipeline.unmatched().is_empty());
                assert_eq!(pipeline.offset() == input.len(), pipeline.reached_eos());
            }
        }
    }
}
