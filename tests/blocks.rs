use property_ranges::blocks::Block;

#[test]
fn blocks_supports_to_string() {
    let block = Block::new(1..=255, "test block");
    assert_eq!(block.to_string(), "0001..00FF; test block");

    let block = Block::new(0..=0xFCFC, "other block");
    assert_eq!(block.to_string(), "0000..FCFC; other block");

    let block = Block::new(0x10000..=0x10FFFF, "wide block");
    assert_eq!(block.to_string(), "10000..10FFFF; wide block");
}

#[test]
fn supports_parsing_from_string() {
    let input = "0001..00FF; test block";
    let block = Block::parse(input).unwrap();
    assert_eq!(block.range, 1..=255);
    assert_eq!(block.name, "test block");

    let input = "0000..FCFC; other block";
    let block = Block::parse(input).unwrap();
    assert_eq!(block.range, 0..=0xFCFC);
    assert_eq!(block.name, "other block");
}

#[test]
fn parsing_trims_the_name() {
    let block = Block::parse("0000..007F;\t Basic Latin \u{3000}").unwrap();
    assert_eq!(block.name, "Basic Latin");
}

#[test]
fn parsing_invalid_block_returns_error() {
    let input = "xx";
    let error = Block::parse(input).unwrap_err();
    assert!(error.contains("`xx` block is missing `;`"));

    let input = "xx..00FF; some name";
    let error = Block::parse(input).unwrap_err();
    assert!(error.contains("block range start `xx` is not a valid code"));
    assert!(error.contains("-- in `xx..00FF; some name`"))
}
