use textblocks::{BlockDelimiter, TextBlocks};

const INT_EXAMPLE: &str = "1000\n2000\n3000\n\n4000\n\n5000\n6000\n\n7000\n8000\n9000\n\n10000";

#[test]
fn test_block_split() {
    let block_delimiter = BlockDelimiter::default();
    let input = "abc\n\na\nb\nc\n\nab\nac\n\na\na\na\na\n\nb".as_blocks(&block_delimiter);
    let expected = vec![
        vec!["abc"],
        vec!["a", "b", "c"],
        vec!["ab", "ac"],
        vec!["a", "a", "a", "a"],
        vec!["b"],
    ];
    assert_eq!(input, expected);
}

#[test]
fn test_block_split_crlf() {
    let block_delimiter = BlockDelimiter::default();
    let s = "abc\r\n\r\na\r\nb\r\nc\r\n\r\nab\r\nac\r\n\r\na\r\na\r\na\r\na\r\n\r\nb"
        .as_blocks(&block_delimiter);
    let expected = vec![
        vec!["abc"],
        vec!["a", "b", "c"],
        vec!["ab", "ac"],
        vec!["a", "a", "a", "a"],
        vec!["b"],
    ];
    assert_eq!(s, expected);
}

#[test]
fn test_string_delimiter() {
    let block_delimiter = BlockDelimiter::Delimiter("***".to_string());
    let s = "abc\n***\na\nb\nc\n***\nab\nac\n***\na\na\na\na\n***\nb".as_blocks(&block_delimiter);
    let expected = vec![
        vec!["abc"],
        vec!["a", "b", "c"],
        vec!["ab", "ac"],
        vec!["a", "a", "a", "a"],
        vec!["b"],
    ];
    assert_eq!(s, expected);
}

#[test]
fn test_block_split_empty() {
    let block_delimiter = BlockDelimiter::default();
    let expected: Vec<Vec<&str>> = vec![];
    assert_eq!(String::new().as_blocks(&block_delimiter), expected);
    assert_eq!("".as_blocks(&block_delimiter), expected);
}

#[test]
fn test_block_split_single() {
    let block_delimiter = BlockDelimiter::default();
    assert_eq!("abc".as_blocks(&block_delimiter), [["abc"]]);
}

#[test]
fn test_block_split_single_with_newline() {
    let block_delimiter = BlockDelimiter::default();
    assert_eq!("abc\n".as_blocks(&block_delimiter), [["abc"]]);
}

#[test]
fn test_block_split_single_with_newline_and_empty() {
    let block_delimiter = BlockDelimiter::default();
    assert_eq!("abc\n\n".as_blocks(&block_delimiter), [["abc"]]);
}

#[test]
fn test_parse_lines_int() {
    let block_delimiter = BlockDelimiter::default();
    let expected = vec![
        vec![1000, 2000, 3000],
        vec![4000],
        vec![5000, 6000],
        vec![7000, 8000, 9000],
        vec![10000],
    ];
    let parsed = INT_EXAMPLE.block_parse_lines(&block_delimiter, |x| x.parse::<u32>().unwrap());
    assert_eq!(parsed, expected);
}

#[test]
fn test_parse_lines_empty() {
    let block_delimiter = BlockDelimiter::default();
    let expected: Vec<Vec<u32>> = vec![];
    let parsed = String::new().block_parse_lines(&block_delimiter, |x| x.parse::<u32>().unwrap());
    assert_eq!(parsed, expected);
}

#[test]
fn test_parse_blocks_empty() {
    let block_delimiter = BlockDelimiter::default();
    let expected: Vec<Vec<u32>> = vec![];
    let parsed = "".block_parse(&block_delimiter, |x| x.parse::<u32>().unwrap(), |x| x);
    assert_eq!(parsed, expected);
}

#[test]
fn test_parse_blocks_non_reduced() {
    let block_delimiter = BlockDelimiter::default();
    let expected = vec![
        vec![1000, 2000, 3000],
        vec![4000],
        vec![5000, 6000],
        vec![7000, 8000, 9000],
        vec![10000],
    ];
    let parsed = INT_EXAMPLE.block_parse(&block_delimiter, |x| x.parse::<u32>().unwrap(), |x| x);
    assert_eq!(parsed, expected);
    let parsed = INT_EXAMPLE.block_parse(
        &block_delimiter,
        |x| x.parse::<u32>().unwrap(),
        |x| x.iter().rev().copied().collect::<Vec<u32>>(),
    );
    assert_eq!(
        parsed,
        expected
            .iter()
            .map(|x| x.iter().rev().copied().collect())
            .collect::<Vec<Vec<u32>>>()
    );
    let expected = vec![
        vec![3000, 2000, 1000],
        vec![4000],
        vec![6000, 5000],
        vec![9000, 8000, 7000],
        vec![10000],
    ];
    assert_eq!(parsed, expected);
}

#[test]
fn test_parse_blocks_reduced() {
    let block_delimiter = BlockDelimiter::default();
    let expected = vec![2000, 0, 1000, 2000, 0];
    let parsed = INT_EXAMPLE.block_parse(
        &block_delimiter,
        |x| x.parse::<u32>().unwrap(),
        |x| x.iter().max().unwrap() - x.iter().min().unwrap(),
    );
    assert_eq!(parsed, expected);
}
