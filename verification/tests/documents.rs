use textblocks::{delimiters, BlockDelimiter, TextBlocks};

const NUMBERS: &str = "100\n200\n\n300\n400\n\n500\n600";

fn crlf(text: &str) -> String {
    text.replace('\n', "\r\n")
}

fn blocks_by_iterators(text: &str, line: &str, block: &str) -> Vec<Vec<String>> {
    let body = text.trim();
    if body.is_empty() {
        return vec![];
    }
    body.split(block)
        .map(|segment| segment.trim().split(line).map(|l| l.to_string()).collect())
        .collect()
}

fn owned(blocks: Vec<Vec<&str>>) -> Vec<Vec<String>> {
    blocks
        .into_iter()
        .map(|lines| lines.into_iter().map(|l| l.to_string()).collect())
        .collect()
}

#[test]
fn default_delimiter_is_the_blank_line() {
    assert!(matches!(BlockDelimiter::default(), BlockDelimiter::DoubleLineGeneric));
}

#[test]
fn every_delimiter_but_a_pattern_is_supported() {
    assert!(BlockDelimiter::DoubleLineGeneric.is_supported());
    assert!(BlockDelimiter::Delimiter("***".to_string()).is_supported());
    assert!(BlockDelimiter::Delimiter(String::new()).is_supported());
    assert!(!BlockDelimiter::Pattern("\\n{2,}".to_string()).is_supported());
}

#[test]
fn delimiters_for_blank_line_without_carriage_return() {
    let pair = delimiters(false, &BlockDelimiter::DoubleLineGeneric);
    assert_eq!(pair, ("\n".to_string(), "\n\n".to_string()));
}

#[test]
fn delimiters_for_blank_line_with_carriage_return() {
    let pair = delimiters(true, &BlockDelimiter::DoubleLineGeneric);
    assert_eq!(pair, ("\r\n".to_string(), "\r\n\r\n".to_string()));
}

#[test]
fn delimiters_for_explicit_string() {
    let delimiter = BlockDelimiter::Delimiter("***".to_string());
    assert_eq!(delimiters(false, &delimiter), ("\n".to_string(), "***".to_string()));
    assert_eq!(delimiters(true, &delimiter), ("\r\n".to_string(), "***".to_string()));
}

#[test]
fn numbers_as_blocks() {
    let blocks = NUMBERS.as_blocks(&BlockDelimiter::DoubleLineGeneric);
    assert_eq!(blocks, vec![vec!["100", "200"], vec!["300", "400"], vec!["500", "600"]]);
}

#[test]
fn numbers_parsed_line_by_line() {
    let parsed = NUMBERS
        .block_parse_lines(&BlockDelimiter::DoubleLineGeneric, |line| line.parse::<u32>().unwrap());
    assert_eq!(parsed, vec![vec![100, 200], vec![300, 400], vec![500, 600]]);
}

#[test]
fn numbers_summed_block_by_block() {
    let parsed = NUMBERS.block_parse(
        &BlockDelimiter::DoubleLineGeneric,
        |line| line.parse::<u32>().unwrap(),
        |block| block.iter().sum::<u32>(),
    );
    assert_eq!(parsed, vec![300, 700, 1100]);
}

#[test]
fn first_characters_collected_per_block() {
    let parsed = "abcde\nwow\n\n11111\n22222\n33333".block_parse(
        &BlockDelimiter::DoubleLineGeneric,
        |line| line.chars().next().unwrap(),
        |block| block.iter().collect::<String>(),
    );
    assert_eq!(parsed, vec!["aw", "123"]);
}

#[test]
fn carriage_returns_give_the_same_blocks() {
    let plain = "abc\n\na\nb\nc\n\nab\nac\n\na\na\na\na\n\nb";
    let with_cr = crlf(plain);
    let delimiter = BlockDelimiter::default();
    assert_eq!(with_cr.as_blocks(&delimiter), plain.as_blocks(&delimiter));
}

#[test]
fn whitespace_alone_gives_no_block() {
    let delimiter = BlockDelimiter::default();
    let expected: Vec<Vec<&str>> = vec![];
    assert_eq!(" ".as_blocks(&delimiter), expected);
    assert_eq!("\n\n\n".as_blocks(&delimiter), expected);
    assert_eq!(" \t\r\n \u{a0}\u{3000}".as_blocks(&delimiter), expected);
    let parsed = "  \n ".block_parse_lines(&delimiter, |line| line.len());
    assert_eq!(parsed, Vec::<Vec<usize>>::new());
    let reduced = "  \n ".block_parse(&delimiter, |line| line.len(), |block| block.len());
    assert_eq!(reduced, Vec::<usize>::new());
}

#[test]
fn document_without_block_delimiter_is_one_block() {
    let delimiter = BlockDelimiter::default();
    assert_eq!("a\nb\nc".as_blocks(&delimiter), vec![vec!["a", "b", "c"]]);
    assert_eq!("  a\nb \nc\n".as_blocks(&delimiter), vec![vec!["a", "b ", "c"]]);
    let stars = BlockDelimiter::Delimiter("***".to_string());
    assert_eq!("a\n\nb".as_blocks(&stars), vec![vec!["a", "", "b"]]);
}

#[test]
fn blocks_are_trimmed_at_their_ends_only() {
    let delimiter = BlockDelimiter::default();
    let blocks = "  a b \n c\n\n\n d\t\n\ne  ".as_blocks(&delimiter);
    assert_eq!(blocks, vec![vec!["a b ", " c"], vec!["d"], vec!["e"]]);
}

#[test]
fn block_parse_trims_every_block() {
    let delimiter = BlockDelimiter::default();
    let lines_per_block = "a\n\n\nb\nc".block_parse(&delimiter, |line| line.to_string(), |b| b);
    assert_eq!(lines_per_block, vec![vec!["a"], vec!["b", "c"]]);
}

#[test]
fn lone_carriage_return_selects_crlf_lines() {
    let delimiter = BlockDelimiter::default();
    assert_eq!("a\nb\r".as_blocks(&delimiter), vec![vec!["a\nb"]]);
    assert_eq!("a\n\nb\r\nc".as_blocks(&delimiter), vec![vec!["a\n\nb", "c"]]);
}

#[test]
fn explicit_delimiter_with_carriage_returns() {
    let delimiter = BlockDelimiter::Delimiter("--".to_string());
    let blocks = "a\r\nb\r\n--\r\nc".as_blocks(&delimiter);
    assert_eq!(blocks, vec![vec!["a", "b"], vec!["c"]]);
}

#[test]
fn adjacent_delimiters_give_a_block_with_one_empty_line() {
    let delimiter = BlockDelimiter::Delimiter("--".to_string());
    assert_eq!("a----b".as_blocks(&delimiter), vec![vec!["a"], vec![""], vec!["b"]]);
    assert_eq!("a---b".as_blocks(&delimiter), vec![vec!["a"], vec!["-b"]]);
}

#[test]
fn matches_are_taken_from_the_left_without_overlap() {
    let delimiter = BlockDelimiter::Delimiter("aa".to_string());
    assert_eq!("xaaay".as_blocks(&delimiter), vec![vec!["x"], vec!["ay"]]);
    assert_eq!("xaaaay".as_blocks(&delimiter), vec![vec!["x"], vec![""], vec!["y"]]);
}

#[test]
fn empty_delimiter_cuts_between_all_characters() {
    let delimiter = BlockDelimiter::Delimiter(String::new());
    let blocks = "a b".as_blocks(&delimiter);
    assert_eq!(blocks, vec![vec![""], vec!["a"], vec![""], vec!["b"], vec![""]]);
    assert_eq!(owned(blocks), blocks_by_iterators("a b", "\n", ""));
}

#[test]
fn text_outside_ascii() {
    let delimiter = BlockDelimiter::default();
    let blocks = "\u{3000}h\u{e9}llo\nw\u{f6}rld\n\n\u{1f600}\u{a0}\n\n\u{4e16}\u{754c} \u{2003}"
        .as_blocks(&delimiter);
    assert_eq!(
        blocks,
        vec![vec!["h\u{e9}llo", "w\u{f6}rld"], vec!["\u{1f600}"], vec!["\u{4e16}\u{754c}"]]
    );
    let stars = BlockDelimiter::Delimiter("\u{2014}\u{2014}".to_string());
    let blocks = "\u{e9}\u{2014}\u{2014}\u{2014}\u{1f600}\n\u{df}".as_blocks(&stars);
    assert_eq!(blocks, vec![vec!["\u{e9}"], vec!["\u{2014}\u{1f600}", "\u{df}"]]);
}

#[test]
fn agrees_with_the_string_iterators() {
    let documents = [
        "",
        " ",
        "a",
        "a\n",
        "\n\na\n\n",
        "a\n\nb",
        "a\n\n\nb",
        "a\n\n\n\nb",
        "a \n\n b\n c \n\n\n\n d",
        "a\r\n\r\nb\r\nc",
        "a\r\n\r\nb\nc\n\nd",
        "x***y***",
        "***x***y",
        "x******y",
        "\u{e9}t\u{e9}\n\n\u{2003}na\u{ef}ve\u{a0}\n***\n\u{1f600}",
        "tab\tinside\n\n\ttab outside\t",
    ];
    let delimiters_to_try = [
        BlockDelimiter::DoubleLineGeneric,
        BlockDelimiter::Delimiter("***".to_string()),
        BlockDelimiter::Delimiter("\n".to_string()),
        BlockDelimiter::Delimiter(" ".to_string()),
        BlockDelimiter::Delimiter(String::new()),
        BlockDelimiter::Delimiter("\u{e9}".to_string()),
    ];
    for document in documents {
        for delimiter in &delimiters_to_try {
            let (line, block) = delimiters(document.contains('\r'), delimiter);
            let expected = blocks_by_iterators(document, &line, &block);
            assert_eq!(owned(document.as_blocks(delimiter)), expected);
            let parsed = document.block_parse_lines(delimiter, |l| l.to_string());
            assert_eq!(parsed, expected);
            let parsed = document.block_parse(delimiter, |l| l.to_string(), |b| b);
            assert_eq!(parsed, expected);
        }
    }
}

#[test]
fn lines_joined_again_give_the_trimmed_document() {
    let delimiter = BlockDelimiter::default();
    let document = "\n one\ntwo\n\nthree\n\nfour\nfive\nsix \n";
    let blocks = document.as_blocks(&delimiter);
    let spelled: Vec<String> = blocks.iter().map(|lines| lines.join("\n")).collect();
    assert_eq!(spelled.join("\n\n"), document.trim());
    let with_inner_space = "one \n\n two";
    let blocks = with_inner_space.as_blocks(&delimiter);
    let spelled: Vec<String> = blocks.iter().map(|lines| lines.join("\n")).collect();
    assert_eq!(spelled.join("\n\n"), "one\n\ntwo");
}

#[test]
fn identity_parsers_give_the_blocks() {
    let delimiter = BlockDelimiter::default();
    let document = "abc\n\na\nb\nc\n\nab\nac\n\na\na\na\na\n\nb";
    let blocks = owned(document.as_blocks(&delimiter));
    assert_eq!(document.block_parse_lines(&delimiter, |line| line.to_string()), blocks);
    assert_eq!(document.block_parse(&delimiter, |line| line.to_string(), |block| block), blocks);
}

#[test]
fn parsers_are_called_in_document_order() {
    let delimiter = BlockDelimiter::default();
    let seen = std::cell::RefCell::new(Vec::new());
    let parsed = "a\nb\n\nc".block_parse(
        &delimiter,
        |line| {
            seen.borrow_mut().push(line.to_string());
            line.len()
        },
        |block| {
            seen.borrow_mut().push(format!("block of {}", block.len()));
            block.len()
        },
    );
    assert_eq!(parsed, vec![2, 1]);
    assert_eq!(*seen.borrow(), vec!["a", "b", "block of 2", "c", "block of 1"]);
}

#[test]
fn unparsable_lines_keep_their_place() {
    let delimiter = BlockDelimiter::default();
    let parsed = "1\nx\n\n3".block_parse_lines(&delimiter, |line| line.parse::<u8>().ok());
    assert_eq!(parsed, vec![vec![Some(1), None], vec![Some(3)]]);
}

#[test]
fn lines_are_slices_of_the_document() {
    let document = String::from("ab\ncd\n\nef");
    let blocks = document.as_blocks(&BlockDelimiter::default());
    let start = document.as_ptr() as usize;
    let offsets: Vec<Vec<usize>> = blocks
        .iter()
        .map(|lines| lines.iter().map(|l| l.as_ptr() as usize - start).collect())
        .collect();
    assert_eq!(offsets, vec![vec![0, 3], vec![7]]);
}

#[test]
fn agrees_with_the_string_iterators_on_all_short_documents() {
    let alphabet = ['a', ' ', '\n', '\r', '*'];
    let delimiters_to_try = [
        BlockDelimiter::DoubleLineGeneric,
        BlockDelimiter::Delimiter("*".to_string()),
        BlockDelimiter::Delimiter("**".to_string()),
        BlockDelimiter::Delimiter(" ".to_string()),
        BlockDelimiter::Delimiter("\n".to_string()),
        BlockDelimiter::Delimiter("a\n".to_string()),
        BlockDelimiter::Delimiter(String::new()),
    ];
    let mut documents = vec![String::new()];
    let mut first_of_length = 0;
    for _ in 0..6 {
        let end = documents.len();
        for i in first_of_length..end {
            for c in alphabet {
                let mut longer = documents[i].clone();
                longer.push(c);
                documents.push(longer);
            }
        }
        first_of_length = end;
    }
    assert_eq!(documents.len(), 19531);
    for document in &documents {
        for delimiter in &delimiters_to_try {
            let (line, block) = delimiters(document.contains('\r'), delimiter);
            let expected = blocks_by_iterators(document, &line, &block);
            assert_eq!(owned(document.as_blocks(delimiter)), expected, "{:?}", document);
        }
    }
}
