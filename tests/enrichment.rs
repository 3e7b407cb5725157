use conversation_store::enrichment::{
    absorb_stream_event, collect_summary, extract_text_content, summary_instruction,
    summary_prompt, StreamEvent,
};
use conversation_store::message::{Content, ContentKind};

fn t(s: &str) -> ContentKind {
    ContentKind::Text { text: s.to_string() }
}

fn img(s: &str) -> ContentKind {
    ContentKind::Image { url: s.to_string() }
}

#[test]
fn single_text_is_extracted() {
    let c = Content::Single(t("hello"));
    assert_eq!(extract_text_content(&c).as_deref(), Some("hello"));
}

#[test]
fn single_image_starts_no_enrichment() {
    let c = Content::Single(img("http://x/a.png"));
    assert_eq!(extract_text_content(&c), None);
}

#[test]
fn texts_of_a_list_are_joined_by_newlines() {
    let c = Content::Multiple(vec![t("one"), img("http://x/a.png"), t("two"), t("three")]);
    assert_eq!(extract_text_content(&c).as_deref(), Some("one\ntwo\nthree"));
}

#[test]
fn list_without_text_gives_none() {
    assert_eq!(extract_text_content(&Content::Multiple(vec![img("u"), img("v")])), None);
    assert_eq!(extract_text_content(&Content::Multiple(vec![])), None);
}

#[test]
fn list_of_strings_becomes_text_items() {
    let c = Content::from_texts(vec!["a".to_string(), "b".to_string()]);
    assert_eq!(extract_text_content(&c).as_deref(), Some("a\nb"));
}

#[test]
fn prompt_holds_prior_summary_and_new_text() {
    let p = summary_prompt(&Some("old".to_string()), &"new".to_string());
    assert_eq!(
        p,
        "Summarize the following conversation, including the new message:\n\n<current_summary>old</current_summary>\n\n<new_message>new</new_message>"
    );
    let q = summary_prompt(&None, &"hi".to_string());
    assert_eq!(
        q,
        "Summarize the following conversation, including the new message:\n\n<current_summary></current_summary>\n\n<new_message>hi</new_message>"
    );
}

#[test]
fn instruction_asks_for_terse_summary() {
    assert!(summary_instruction().starts_with("You are a helpful assistant"));
    assert!(summary_instruction().contains("Be terse."));
}

#[test]
fn stream_text_fragments_are_concatenated() {
    let events = vec![
        StreamEvent::Other,
        StreamEvent::Text("Hel".to_string()),
        StreamEvent::Image,
        StreamEvent::Text("lo".to_string()),
    ];
    assert_eq!(collect_summary(&events).as_deref(), Some("Hello"));
    assert_eq!(collect_summary(&vec![]).as_deref(), Some(""));
}

#[test]
fn failed_stream_gives_no_summary() {
    let events = vec![
        StreamEvent::Text("partial".to_string()),
        StreamEvent::Failed,
        StreamEvent::Text("more".to_string()),
    ];
    assert_eq!(collect_summary(&events), None);
}

#[test]
fn absorb_appends_text_and_stops_on_failure() {
    let mut s = "a".to_string();
    assert!(absorb_stream_event(&mut s, &StreamEvent::Text("b".to_string())));
    assert!(absorb_stream_event(&mut s, &StreamEvent::Image));
    assert_eq!(s, "ab");
    assert!(!absorb_stream_event(&mut s, &StreamEvent::Failed));
    assert_eq!(s, "ab");
}

#[test]
fn string_becomes_single_text_item() {
    let c: Content = "plain".to_string().into();
    assert!(matches!(&c, Content::Single(ContentKind::Text { text }) if text == "plain"));
    assert_eq!(extract_text_content(&c).as_deref(), Some("plain"));
}
