use dreamberd::lexer::{serialize, tokenize, tokenize_chars};
use dreamberd::token::Token;

/// A small generator of numbers, good enough to pick characters.
fn step(seed: &mut u64) -> u64 {
    *seed = seed.wrapping_mul(6364136223846793005).wrapping_add(1442695040888963407);
    *seed >> 33
}

fn sample(seed: &mut u64, alphabet: &[char], length: usize) -> String {
    (0..length).map(|_| alphabet[(step(seed) as usize) % alphabet.len()]).collect()
}

fn check(source: &str) {
    if let Ok(tokens) = tokenize(source) {
        let written = serialize(&tokens);
        let again: Result<Vec<Token>, _> = tokenize_chars(&written);
        assert_eq!(again, Ok(tokens), "source {source:?}, written {written:?}");
    }
}

#[test]
fn written_tokens_read_back_on_sampled_texts() {
    let everything = [
        'a', 'b', '1', ' ', '\n', '\t', '=', '!', '?', '+', '-', '>', '<', '*', '/', '%', '{', '}',
        '(', ')', ';', ':', '.', ',', '&', '|', '"', '\'', '`', '«', '»', '\\', '$', '£', '¥', '€',
    ];
    let strings = ['a', '{', '}', '$', '¥', '€', '\\', '"', '\'', '`', '»', ' '];
    let mut seed = 7u64;
    for round in 0..20000 {
        let length = 1 + round % 12;
        check(&sample(&mut seed, &everything, length));
        let body = sample(&mut seed, &strings, length);
        check(&format!("\"{body}\""));
        check(&format!("'{body}'"));
        check(&format!("`{body}`"));
        check(&format!("«{body}»"));
    }
}

#[test]
fn written_tokens_read_back_on_chosen_texts() {
    check("{const var count = 0! count += 1! count}");
    check("`Hi, I'm ¥{name}` + 'Hi, I\\'m {name}€' ==== \"${a\\}b}€\"");
    check("a->b - >c -= d --e ++f");
    check("x\n\n\ty   z");
}

#[test]
fn reading_what_was_written_changes_nothing_the_second_time() {
    let tokens = vec![
        Token::Ident("a\tb".chars().collect()),
        Token::Plus,
        Token::Equal(2),
        Token::Space(0),
        Token::PlusPlus,
    ];
    let once = dreamberd::lexer::relex(&tokens).unwrap();
    assert_ne!(once, tokens);
    assert_eq!(dreamberd::lexer::relex(&once), Ok(once));
}
