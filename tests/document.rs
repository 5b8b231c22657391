use testmark::parser::{create_document, normalize_info};
use testmark::{Document, ParseError};

const TEST_DATA: &str = r#"This is a markdown file
=======================

... and it's also going to contain test fixture data.

The markdown is full of idioms and unidiomatic things alike.

The contents don't really matter, mostly.
They're freetext, and you can use markdown to describe whatever you want.

Except these:

[testmark]:# (this-is-the-data-name)
```text
the content of this code block is data which can be read,
and *replaced*, by testmark.
```

That's not a regular code block.
I mean, it is -- but be sure to look at this file in a "raw" mode.
There's also a comment above it, which tells testmark to look at it:

```
[testmark]:# (this-is-the-data-name)
```

That comment, coming right before a triple-backtick code block, is a signal.
It tells testmark to look at the codeblock, and also gives that code block a name.


Multiple data hunks per file
----------------------------

You can have more than one block like that in a file:

[testmark]:# (more-data)
```go
func OtherMarkdownParsers() (shouldHighlight bool) {
	return true
}
```

### the headings don't matter

Every other markdown feature, like the headings, are totally ignored.
That structure is for *you*, human, as you write documentation together with your data.


Editing
-------

Testmark can edit a file like this one, and replace the code block contents according to the name given in the comment.
(It's kind of like a big map of strings, in that regard.)

Usually, a human writes the testmark file.
If the human wants to programmatically populate things, the human writes out the code block and names it with the magic comment format,
and then runs some tool that updates the content.

Some libraries may also be able to create a testmark file purely programmatically, but this is usually more complicated,
and makes it harder to control the rest of the document...
which, presumably, you do still want to fill with prose (and markdown-formatted) descriptions of the data.


One note
--------

There is one thing this format is bad at:
you can't easily describe data that doesn't have a trailing linebreak.

[testmark]:# (cannot-describe-no-linebreak)
```
A markdown codeblock always has a trailing linebreak before its close indicator, you see.
```

That's a problem in many formats though, frankly.
"#;

const MUTATION_ORIG: &str = r#"
# Header text

[testmark]:# (mutation-test)
```text
This is the original
```

Footer text
"#;

const MUTATION_NEW: &str = r#"
# Header text

[testmark]:# (mutation-test-2)
```rust
pub fn main() {
  println!("Hello World!");
}
```

Footer text
"#;

#[test]
fn parse_example() {
    let doc = Document::from_string(&TEST_DATA).unwrap();
    assert_eq!(doc.hunks().len(), 3);

    let hunk = &doc.hunks()[0];
    assert_eq!(hunk.name(), "this-is-the-data-name");
    assert_eq!(hunk.info(), Some(&"text".to_string()));

    let hunk = &doc.hunks()[1];
    assert_eq!(hunk.name(), "more-data");
    assert_eq!(hunk.info(), Some(&"go".to_string()));

    let hunk = &doc.hunks()[2];
    assert_eq!(hunk.name(), "cannot-describe-no-linebreak");
    assert_eq!(hunk.info(), None);
}

#[test]
fn test_mutation() {
    let mut doc = Document::from_string(MUTATION_ORIG).unwrap();
    let hunk = &mut doc.hunks_mut()[0];
    hunk.set_name("mutation-test-2");
    hunk.set_info(Some("rust".to_string()));
    hunk.set_data(
        r#"pub fn main() {
  println!("Hello World!");
}"#
        .as_bytes()
        .to_vec(),
    );
    let new_doc = doc.render();
    assert_eq!(&new_doc, MUTATION_NEW.as_bytes());
}

#[test]
fn example_payloads_and_spans() {
    let doc = Document::from_string(TEST_DATA).unwrap();
    let hunks = doc.hunks();
    assert_eq!(
        hunks[0].data(),
        b"the content of this code block is data which can be read,\nand *replaced*, by testmark."
    );
    assert_eq!(
        hunks[1].data_string(),
        "func OtherMarkdownParsers() (shouldHighlight bool) {\n\treturn true\n}"
    );
    for h in hunks {
        let pos = h.original_pos();
        assert!(TEST_DATA.as_bytes()[pos.start..].starts_with(b"[testmark]:# ("));
        assert!(TEST_DATA.as_bytes()[..pos.end].ends_with(b"```"));
    }
    assert!(hunks[0].original_pos().end <= hunks[1].original_pos().start);
    assert!(hunks[1].original_pos().end <= hunks[2].original_pos().start);
}

#[test]
fn round_trip_of_example() {
    let doc = Document::from_string(TEST_DATA).unwrap();
    assert_eq!(doc.render(), TEST_DATA.as_bytes());
}

#[test]
fn round_trip_of_mutation_fixtures() {
    let doc = Document::from_string(MUTATION_ORIG).unwrap();
    assert_eq!(doc.render(), MUTATION_ORIG.as_bytes());
    let doc = Document::from_string(MUTATION_NEW).unwrap();
    assert_eq!(doc.render(), MUTATION_NEW.as_bytes());
}

#[test]
fn single_hunk_scenario() {
    let input = "intro\n[testmark]:# (only)\n```text\nhello\n```\noutro\n";
    let doc = Document::from_string(input).unwrap();
    assert_eq!(doc.hunks().len(), 1);
    let h = &doc.hunks()[0];
    assert_eq!(h.name(), "only");
    assert_eq!(h.info(), Some(&"text".to_string()));
    assert_eq!(h.data(), b"hello");
    assert_eq!(h.original_pos().start, 6);
    assert_eq!(h.original_pos().end, input.len() - "\noutro\n".len());
    assert_eq!(doc.render(), input.as_bytes());
}

#[test]
fn three_hunks_with_unmarked_fence() {
    let input = "# Title\n\n[testmark]:# (a)\n```json\n{}\n```\n\nsome prose\n\n```rust\nfn unmarked() {}\n```\n\n[testmark]:# (b)\n```\nno info\n```\nmore\n[testmark]:# (c)\n```sh\necho c\n```\n";
    let doc = Document::from_bytes(input.as_bytes().to_vec()).unwrap();
    let names: Vec<&str> = doc.hunks().iter().map(|h| h.name()).collect();
    assert_eq!(names, vec!["a", "b", "c"]);
    assert_eq!(doc.hunks()[1].info(), None);
    assert_eq!(doc.hunks()[2].data(), b"echo c");
    assert_eq!(doc.render(), input.as_bytes());
}

#[test]
fn marker_text_inside_unmarked_fence_is_ignored() {
    let input = "```\n[testmark]:# (hidden)\n```\n";
    let doc = Document::from_string(input).unwrap();
    assert_eq!(doc.hunks().len(), 0);
    assert_eq!(doc.render(), input.as_bytes());
}

#[test]
fn no_blocks_at_all() {
    let doc = Document::from_string("").unwrap();
    assert_eq!(doc.hunks().len(), 0);
    assert_eq!(doc.render(), b"");
    let doc = Document::from_string("just prose, [testmark] and `code`\n").unwrap();
    assert_eq!(doc.hunks().len(), 0);
    assert_eq!(doc.render(), b"just prose, [testmark] and `code`\n");
}

#[test]
fn info_whitespace_is_none_and_text_is_trimmed() {
    let doc = Document::from_string("[testmark]:# (x)\n```   \t \ndata\n```").unwrap();
    assert_eq!(doc.hunks()[0].info(), None);
    let doc = Document::from_string("[testmark]:# (x)\n```  go extra  \ndata\n```").unwrap();
    assert_eq!(doc.hunks()[0].info(), Some(&"go extra".to_string()));
    assert_eq!(
        doc.render(),
        b"[testmark]:# (x)\n```go extra\ndata\n```".to_vec()
    );
}

#[test]
fn normalize_info_values() {
    assert_eq!(normalize_info(String::new()), None);
    assert_eq!(normalize_info("text".to_string()), Some("text".to_string()));
    assert_eq!(normalize_info("a b".to_string()), Some("a b".to_string()));
}

#[test]
fn payload_without_trailing_line_break() {
    let doc = Document::from_string("[testmark]:# (n)\n```\nabc```\n").unwrap();
    assert_eq!(doc.hunks()[0].data(), b"abc");
    assert_eq!(doc.render(), b"[testmark]:# (n)\n```\nabc\n```\n".to_vec());
}

#[test]
fn empty_payloads() {
    let doc = Document::from_string("[testmark]:# (e)\n```\n```").unwrap();
    assert_eq!(doc.hunks()[0].data(), b"");
    let doc = Document::from_string("[testmark]:# (e)\n```\n\n```").unwrap();
    assert_eq!(doc.hunks()[0].data(), b"");
    assert_eq!(doc.render(), b"[testmark]:# (e)\n```\n\n```".to_vec());
}

#[test]
fn payload_keeps_interior_line_breaks() {
    let doc = Document::from_string("[testmark]:# (m)\n```\n\na\n\nb\n\n```").unwrap();
    assert_eq!(doc.hunks()[0].data(), b"\na\n\nb\n");
}

#[test]
fn rest_of_marker_line_is_dropped_on_render() {
    let input = "[testmark]:# (r) trailing words\n```\nx\n```";
    let doc = Document::from_string(input).unwrap();
    assert_eq!(doc.hunks()[0].name(), "r");
    assert_eq!(doc.render(), b"[testmark]:# (r)\n```\nx\n```".to_vec());
}

#[test]
fn name_may_span_lines() {
    let doc = Document::from_string("[testmark]:# (two\nlines)\n```\nx\n```").unwrap();
    assert_eq!(doc.hunks()[0].name(), "two\nlines");
}

#[test]
fn error_unclosed_name() {
    let r = Document::from_string("text\n[testmark]:# (no-closing-paren\n```\nx\n```\n");
    assert_eq!(r.err(), Some(ParseError::UnclosedName));
}

#[test]
fn error_empty_name() {
    let r = Document::from_string("[testmark]:# ()\n```\nx\n```\n");
    assert_eq!(r.err(), Some(ParseError::EmptyName));
}

#[test]
fn error_unterminated_marker_line() {
    let r = Document::from_string("[testmark]:# (a)");
    assert_eq!(r.err(), Some(ParseError::UnterminatedMarkerLine));
}

#[test]
fn error_missing_fence() {
    let r = Document::from_string("[testmark]:# (a)\n\n```\nx\n```\n");
    assert_eq!(r.err(), Some(ParseError::MissingFence));
}

#[test]
fn error_unterminated_info_line() {
    let r = Document::from_string("prose ```text");
    assert_eq!(r.err(), Some(ParseError::UnterminatedInfoLine));
}

#[test]
fn error_unclosed_fence() {
    let r = Document::from_string("[testmark]:# (a)\n```\nnever closed\n");
    assert_eq!(r.err(), Some(ParseError::UnclosedFence));
    let r = Document::from_string("ok\n```\nunmarked and never closed\n");
    assert_eq!(r.err(), Some(ParseError::UnclosedFence));
}

#[test]
fn error_after_good_hunk_fails_whole_parse() {
    let r = Document::from_string("[testmark]:# (a)\n```\nx\n```\n[testmark]:# (b\n");
    assert_eq!(r.err(), Some(ParseError::UnclosedName));
}

#[test]
fn edit_changes_only_that_hunk() {
    let input = "head\n[testmark]:# (one)\n```\n1\n```\nmiddle\n[testmark]:# (two)\n```\n2\n```\ntail\n";
    let mut doc = create_document(input.as_bytes().to_vec()).unwrap();
    doc.hunks_mut()[1].set_data(b"22".to_vec());
    assert_eq!(
        doc.render(),
        b"head\n[testmark]:# (one)\n```\n1\n```\nmiddle\n[testmark]:# (two)\n```\n22\n```\ntail\n".to_vec()
    );
    doc.hunks_mut()[0].set_name("uno");
    doc.hunks_mut()[0].set_info(Some("txt".to_string()));
    assert_eq!(
        doc.render(),
        b"head\n[testmark]:# (uno)\n```txt\n1\n```\nmiddle\n[testmark]:# (two)\n```\n22\n```\ntail\n".to_vec()
    );
    assert_eq!(doc.hunks()[0].original_pos().start, 5);
}

#[test]
fn invalid_utf8_is_replaced_in_names_and_kept_in_payloads() {
    let mut input = b"[testmark]:# (a".to_vec();
    input.push(0xff);
    input.extend_from_slice(b")\n```\n");
    input.push(0xfe);
    input.extend_from_slice(b"\n```");
    let doc = Document::from_bytes(input).unwrap();
    assert_eq!(doc.hunks()[0].name(), "a\u{fffd}");
    assert_eq!(doc.hunks()[0].data(), &[0xfe]);
    assert_eq!(doc.hunks()[0].data_string(), "\u{fffd}");
}

#[test]
fn hunk_render_writes_marker_and_fences() {
    let doc = Document::from_string("[testmark]:# (k)\n```c\nint x;\n```").unwrap();
    assert_eq!(
        doc.hunks()[0].render(),
        b"[testmark]:# (k)\n```c\nint x;\n```".to_vec()
    );
}
