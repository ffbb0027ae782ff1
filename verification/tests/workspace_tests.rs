use scribe::{Buffer, Workspace};
use syntect::parsing::SyntaxSet;

fn sample_buffer() -> Buffer {
    Buffer::from_content("it works!\n".to_string(), Some("/work/sample/file".to_string()))
}

#[test]
fn add_buffer_adds_and_selects_the_passed_buffer() {
    let mut workspace = Workspace::new("/work/sample".to_string());
    let buf = sample_buffer();
    workspace.add_buffer(buf);

    assert_eq!(workspace.buffers.len(), 1);
    assert_eq!(workspace.current_buffer().unwrap().data(), "it works!\n");
}

#[test]
fn add_buffer_inserts_the_new_buffer_after_the_current_buffer() {
    let mut workspace = Workspace::new("/work/sample".to_string());
    let mut buf1 = Buffer::new();
    let mut buf2 = Buffer::new();
    let mut buf3 = Buffer::new();
    buf1.insert("one");
    buf2.insert("two");
    buf3.insert("three");
    workspace.add_buffer(buf1);
    workspace.add_buffer(buf2);

    // Move to the first buffer.
    workspace.previous_buffer();

    // Insert the last buffer.
    workspace.add_buffer(buf3);

    // Make sure the newly inserted buffer was inserted after the current buffer.
    workspace.previous_buffer();
    assert_eq!(workspace.current_buffer().unwrap().data(), "one");
}

#[test]
fn add_buffer_populates_buffers_with_unique_id_values() {
    let mut workspace = Workspace::new("/work/sample".to_string());
    let buf1 = Buffer::new();
    let buf2 = Buffer::new();
    let buf3 = Buffer::new();

    workspace.add_buffer(buf1);
    assert_eq!(workspace.current_buffer().unwrap().id.unwrap(), 0);

    workspace.add_buffer(buf2);
    assert_eq!(workspace.current_buffer().unwrap().id.unwrap(), 1);

    workspace.add_buffer(buf3);
    assert_eq!(workspace.current_buffer().unwrap().id.unwrap(), 2);
}

#[test]
fn add_buffer_populates_buffers_without_paths_using_plain_text_syntax() {
    let mut workspace = Workspace::new("/work/sample".to_string());
    let buf = Buffer::new();
    workspace.add_buffer(buf);

    let name = workspace
        .current_buffer()
        .and_then(|b| b.syntax_definition.as_ref().map(|sd| sd.name.clone()));

    assert!(workspace.current_buffer().unwrap().syntax_definition.is_some());
    assert_eq!(name, Some("Plain Text".to_string()));
}

#[test]
fn add_buffer_populates_buffers_with_unknown_extensions_using_plain_text_syntax() {
    let mut workspace = Workspace::new("/work/sample".to_string());
    let buf = sample_buffer();
    workspace.add_buffer(buf);

    let name = workspace
        .current_buffer()
        .and_then(|b| b.syntax_definition.as_ref().map(|sd| sd.name.clone()));

    assert!(workspace.current_buffer().unwrap().syntax_definition.is_some());
    assert_eq!(name, Some("Plain Text".to_string()));
}

#[test]
fn add_buffer_assigns_syntax_by_extension() {
    let mut workspace = Workspace::new("/work/sample".to_string());
    let buf = Buffer::from_content("fn main() {}\n".to_string(), Some("/work/sample/mod.rs".to_string()));
    workspace.add_buffer(buf);

    let name = workspace
        .current_buffer()
        .and_then(|b| b.syntax_definition.as_ref().map(|sd| sd.name.clone()));

    assert_eq!(name, Some("Rust".to_string()));
}

#[test]
fn current_buffer_returns_none_when_there_are_no_buffers() {
    let workspace = Workspace::new("/work/sample".to_string());
    assert!(workspace.current_buffer().is_none());
}

#[test]
fn current_buffer_returns_one_when_there_are_buffers() {
    let mut workspace = Workspace::new("/work/sample".to_string());
    let buf = sample_buffer();
    workspace.add_buffer(buf);
    assert!(workspace.current_buffer().is_some());
}

#[test]
fn current_buffer_path_works_with_absolute_paths() {
    let mut workspace = Workspace::new("/work/sample".to_string());
    let mut buf = Buffer::new();
    buf.path = Some("/elsewhere/entirely".to_string());
    workspace.add_buffer(buf);
    assert_eq!(
        workspace.current_buffer_path(),
        Some("/elsewhere/entirely".to_string())
    );
}

#[test]
fn current_buffer_path_relativizes_paths_under_the_workspace() {
    let mut workspace = Workspace::new("/work/sample".to_string());
    let buf = sample_buffer();
    workspace.add_buffer(buf);
    assert_eq!(workspace.current_buffer_path(), Some("file".to_string()));
}

#[test]
fn close_current_buffer_does_nothing_when_none_are_open() {
    let mut workspace = Workspace::new("/work/sample".to_string());
    workspace.close_current_buffer();
    assert!(workspace.current_buffer().is_none());
}

#[test]
fn close_current_buffer_cleans_up_when_only_one_buffer_is_open() {
    let mut workspace = Workspace::new("/work/sample".to_string());
    workspace.add_buffer(Buffer::new());
    workspace.close_current_buffer();
    assert!(workspace.current_buffer().is_none());
    assert!(workspace.current_buffer_index().is_none());
}

#[test]
fn close_current_buffer_selects_the_previous_buffer() {
    let mut workspace = Workspace::new("/work/sample".to_string());

    // Create buffers and add them to the workspace.
    let mut first_buffer = Buffer::new();
    let mut second_buffer = Buffer::new();
    let mut third_buffer = Buffer::new();
    first_buffer.insert("first buffer");
    second_buffer.insert("second buffer");
    third_buffer.insert("second buffer");
    workspace.add_buffer(first_buffer);
    workspace.add_buffer(second_buffer);
    workspace.add_buffer(third_buffer);

    // Select the second buffer to make sure we
    // don't simply select the last buffer in the set.
    workspace.previous_buffer();

    workspace.close_current_buffer();
    assert_eq!(workspace.current_buffer().unwrap().data(), "first buffer");
}

#[test]
fn close_current_buffer_selects_the_next_buffer_when_current_is_at_start() {
    let mut workspace = Workspace::new("/work/sample".to_string());

    // Create buffers and add them to the workspace.
    let mut first_buffer = Buffer::new();
    let mut second_buffer = Buffer::new();
    let mut third_buffer = Buffer::new();
    first_buffer.insert("first buffer");
    second_buffer.insert("second buffer");
    third_buffer.insert("second buffer");
    workspace.add_buffer(first_buffer);
    workspace.add_buffer(second_buffer);
    workspace.add_buffer(third_buffer);

    // Select the first buffer.
    workspace.previous_buffer();
    workspace.previous_buffer();

    workspace.close_current_buffer();
    assert_eq!(workspace.current_buffer().unwrap().data(), "second buffer");
}

#[test]
fn previous_buffer_does_nothing_when_no_buffers_are_open() {
    let mut workspace = Workspace::new("/work/sample".to_string());
    workspace.previous_buffer();
    assert!(workspace.current_buffer().is_none());
}

#[test]
fn previous_buffer_when_three_are_open_selects_previous_wrapping_to_last() {
    let mut workspace = Workspace::new("/work/sample".to_string());

    // Create buffers and add them to the workspace.
    let mut first_buffer = Buffer::new();
    let mut second_buffer = Buffer::new();
    let mut third_buffer = Buffer::new();
    first_buffer.insert("first buffer");
    second_buffer.insert("second buffer");
    third_buffer.insert("third buffer");
    workspace.add_buffer(first_buffer);
    workspace.add_buffer(second_buffer);
    workspace.add_buffer(third_buffer);

    // Ensure that the third buffer is currently selected.
    assert_eq!(workspace.current_buffer().unwrap().data(), "third buffer");

    // Ensure that the second buffer is returned.
    workspace.previous_buffer();
    assert_eq!(workspace.current_buffer().unwrap().data(), "second buffer");

    // Ensure that the first buffer is returned.
    workspace.previous_buffer();
    assert_eq!(workspace.current_buffer().unwrap().data(), "first buffer");

    // Ensure that it wraps back to the third buffer.
    workspace.previous_buffer();
    assert_eq!(workspace.current_buffer().unwrap().data(), "third buffer");
}

#[test]
fn next_buffer_does_nothing_when_no_buffers_are_open() {
    let mut workspace = Workspace::new("/work/sample".to_string());
    workspace.next_buffer();
    assert!(workspace.current_buffer().is_none());
}

#[test]
fn next_buffer_when_three_are_open_selects_next_wrapping_to_first() {
    let mut workspace = Workspace::new("/work/sample".to_string());

    // Create buffers and add them to the workspace.
    let mut first_buffer = Buffer::new();
    let mut second_buffer = Buffer::new();
    let mut third_buffer = Buffer::new();
    first_buffer.insert("first buffer");
    second_buffer.insert("second buffer");
    third_buffer.insert("third buffer");
    workspace.add_buffer(first_buffer);
    workspace.add_buffer(second_buffer);
    workspace.add_buffer(third_buffer);

    // Ensure that the third buffer is currently selected.
    assert_eq!(workspace.current_buffer().unwrap().data(), "third buffer");

    // Ensure that it wraps back to the first buffer.
    workspace.next_buffer();
    assert_eq!(workspace.current_buffer().unwrap().data(), "first buffer");

    // Ensure that the second buffer is returned.
    workspace.next_buffer();
    assert_eq!(workspace.current_buffer().unwrap().data(), "second buffer");

    // Ensure that the third buffer is returned.
    workspace.next_buffer();
    assert_eq!(workspace.current_buffer().unwrap().data(), "third buffer");
}

#[test]
fn update_current_syntax_requires_a_buffer() {
    let mut workspace = Workspace::new("/work/sample".to_string());
    assert_eq!(
        workspace.update_current_syntax(),
        Err(scribe::Error::EmptyWorkspace)
    );
}

#[test]
fn update_current_syntax_follows_a_changed_path() {
    let mut workspace = Workspace::new("/work/sample".to_string());
    workspace.add_buffer(Buffer::new());

    let name = workspace
        .current_buffer()
        .and_then(|b| b.syntax_definition.as_ref().map(|sd| sd.name.clone()));
    assert_eq!(name, Some("Plain Text".to_string()));

    // Add a path and update the syntax definition.
    workspace.current_buffer_mut().unwrap().path = Some("mod.rs".to_string());
    workspace.update_current_syntax().unwrap();

    let name = workspace
        .current_buffer()
        .and_then(|b| b.syntax_definition.as_ref().map(|sd| sd.name.clone()));
    assert_eq!(name, Some("Rust".to_string()));
}

#[test]
fn select_buffer_by_path_finds_open_buffers() {
    let mut workspace = Workspace::new("/work/sample".to_string());
    workspace.add_buffer(sample_buffer());

    let mut other = Buffer::new();
    other.insert("scribe");
    workspace.add_buffer(other);
    assert_eq!(workspace.current_buffer().unwrap().data(), "scribe");

    assert!(workspace.select_buffer_by_path("/work/sample/file"));
    assert_eq!(workspace.current_buffer().unwrap().data(), "it works!\n");
    assert!(!workspace.select_buffer_by_path("/work/sample/other"));
}

#[test]
fn buffer_paths_relativize_where_possible() {
    let mut workspace = Workspace::new("/work/sample".to_string());
    workspace.add_buffer(sample_buffer());
    let mut outside = Buffer::new();
    outside.path = Some("/elsewhere/file2".to_string());
    workspace.add_buffer(outside);

    assert_eq!(
        workspace.buffer_paths(),
        vec![
            Some("file".to_string()),
            Some("/elsewhere/file2".to_string()),
        ]
    );
}

#[test]
fn current_buffer_tokens_requires_a_buffer() {
    let workspace = Workspace::new("/work/sample".to_string());
    assert!(workspace.current_buffer_tokens().is_err());
}

#[test]
fn current_buffer_tokens_streams_the_current_buffer() {
    let mut workspace = Workspace::new("/work/sample".to_string());
    let mut buf = Buffer::new();
    buf.insert("hi");
    workspace.add_buffer(buf);

    let token_set = workspace.current_buffer_tokens().unwrap();
    let mut iterator = token_set.iter().unwrap();
    let mut count = 0;
    while let Ok(Some(_)) = iterator.next_token() {
        count += 1;
        if count > 10 {
            break;
        }
    }
    assert_eq!(count, 1);
}

#[test]
fn current_buffer_tokens_requires_a_syntax_definition() {
    let mut workspace = Workspace::new("/work/sample".to_string());
    workspace.add_buffer(Buffer::new());
    workspace.current_buffer_mut().unwrap().syntax_definition = None;

    assert_eq!(
        workspace.current_buffer_tokens().err(),
        Some(scribe::Error::MissingSyntax)
    );
}

#[test]
fn add_buffer_leaves_syntax_unassigned_on_a_set_without_plain_text() {
    // A workspace around an empty syntax set can neither look syntaxes up
    // by extension nor fall back to plain text; buffers stay unassigned
    // (and nothing panics).
    let mut workspace =
        Workspace::with_syntax_set("/work/sample".to_string(), SyntaxSet::new());
    workspace.add_buffer(Buffer::new());
    assert!(workspace.current_buffer().unwrap().syntax_definition.is_none());
    assert_eq!(
        workspace.current_buffer_tokens().err(),
        Some(scribe::Error::MissingSyntax)
    );
}
