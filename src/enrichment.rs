use vstd::prelude::*;

use crate::message::{Content, ContentItem, ContentKind, ContentView, items_view};

verus! {

/// The texts of the text items, in order; image items are passed over.
pub open spec fn texts_of(items: Seq<ContentItem>) -> Seq<Seq<char>>
    decreases items.len(),
{
    if items.len() == 0 {
        Seq::empty()
    } else {
        let rest = texts_of(items.drop_last());
        match items.last() {
            ContentItem::Text(t) => rest.push(t),
            ContentItem::Image(_) => rest,
        }
    }
}

/// The texts joined by single newlines.
pub open spec fn joined(texts: Seq<Seq<char>>) -> Seq<char>
    decreases texts.len(),
{
    if texts.len() == 0 {
        Seq::empty()
    } else if texts.len() == 1 {
        texts[0]
    } else {
        joined(texts.drop_last()) + "\n"@ + texts.last()
    }
}

/// The text that enrichment works on: a single text item's text, or the texts
/// of a list's text items joined by newlines; none where the content holds no
/// text item.
pub open spec fn text_of(c: ContentView) -> Option<Seq<char>> {
    match c {
        ContentView::Single(ContentItem::Text(t)) => Some(t),
        ContentView::Single(ContentItem::Image(_)) => None,
        ContentView::Multiple(items) => if texts_of(items).len() == 0 {
            None
        } else {
            Some(joined(texts_of(items)))
        },
    }
}

/// The text that enrichment summarises and embeds, if the content has any. A
/// message without text starts neither the summary nor the embedding task.
pub fn extract_text_content(content: &Content) -> (r: Option<String>)
    ensures
        match r {
            Some(s) => text_of(content@) == Some(s@),
            None => text_of(content@) is None,
        },
{
    match content {
        Content::Single(ContentKind::Text { text }) => Some(text.clone()),
        Content::Single(ContentKind::Image { .. }) => None,
        Content::Multiple(items) => {
            let ghost iv = items_view(items@);
            let mut acc = String::new();
            let mut found = false;
            let mut i: usize = 0;
            while i < items.len()
                invariant
                    i <= items@.len(),
                    iv == items_view(items@),
                    found == (texts_of(iv.subrange(0, i as int)).len() > 0),
                    acc@ == joined(texts_of(iv.subrange(0, i as int))),
                decreases items.len() - i,
            {
                let ghost prev = texts_of(iv.subrange(0, i as int));
                let ghost sub = iv.subrange(0, i as int + 1);
                assert(sub.drop_last() =~= iv.subrange(0, i as int));
                assert(sub.last() == items@[i as int]@);
                match &items[i] {
                    ContentKind::Text { text } => {
                        assert(texts_of(sub) == prev.push(text@));
                        assert(prev.push(text@).drop_last() =~= prev);
                        if found {
                            acc.append("\n");
                            acc.append(text.as_str());
                        } else {
                            acc = text.clone();
                        }
                        found = true;
                    },
                    ContentKind::Image { .. } => {},
                }
                i += 1;
            }
            assert(iv.subrange(0, i as int) =~= iv);
            if found {
                Some(acc)
            } else {
                None
            }
        },
    }
}

/// The request text that asks for a new running summary.
pub open spec fn summary_request(prior: Seq<char>, new_text: Seq<char>) -> Seq<char> {
    "Summarize the following conversation, including the new message:\n\n<current_summary>"@
        + prior + "</current_summary>\n\n<new_message>"@ + new_text + "</new_message>"@
}

/// The request sent to the completion service: the thread's prior summary
/// (empty where it has none) and the new message's text.
pub fn summary_prompt(prior: &Option<String>, new_text: &String) -> (r: String)
    ensures
        r@ == summary_request(
            match prior {
                Some(p) => p@,
                None => Seq::empty(),
            },
            new_text@,
        ),
{
    let mut r = String::from_str(
        "Summarize the following conversation, including the new message:\n\n<current_summary>",
    );
    match prior {
        Some(p) => r.append(p.as_str()),
        None => {},
    }
    r.append("</current_summary>\n\n<new_message>");
    r.append(new_text.as_str());
    r.append("</new_message>");
    r
}

/// The fixed instruction that goes with every summary request.
pub fn summary_instruction() -> (r: String)
    ensures
        r@ == "You are a helpful assistant tasked with summarizing conversations. Provide a concise summary that captures the main points and overall context of the discussion. You must only answer with the new summary and nothing else. Be terse. Do not bother me with lengthy answers that were not asked for; my time is valuable. Be terse yet include all the information necessary to have a good overview of the conversation."@,
{
    String::from_str(
        "You are a helpful assistant tasked with summarizing conversations. Provide a concise summary that captures the main points and overall context of the discussion. You must only answer with the new summary and nothing else. Be terse. Do not bother me with lengthy answers that were not asked for; my time is valuable. Be terse yet include all the information necessary to have a good overview of the conversation.",
    )
}

/// One event of the completion service's response stream.
pub enum StreamEvent {
    /// A fragment of text.
    Text(String),
    /// A fragment that holds an image.
    Image,
    /// An event that carries no content.
    Other,
    /// The stream failed.
    Failed,
}

/// Takes one stream event into the summary being built: a text fragment is
/// appended, other events leave it alone. Returns whether to read on: false
/// only where the stream failed, and the task then ends without writing.
pub fn absorb_stream_event(summary: &mut String, event: &StreamEvent) -> (r: bool)
    ensures
        r == !(event is Failed),
        match event {
            StreamEvent::Text(t) => final(summary)@ == old(summary)@ + t@,
            _ => final(summary)@ == old(summary)@,
        },
{
    match event {
        StreamEvent::Text(t) => {
            summary.append(t.as_str());
            true
        },
        StreamEvent::Image => true,
        StreamEvent::Other => true,
        StreamEvent::Failed => false,
    }
}

/// What a whole stream gives: its text fragments in order, or none where it failed.
pub open spec fn stream_summary(events: Seq<StreamEvent>) -> Option<Seq<char>>
    decreases events.len(),
{
    if events.len() == 0 {
        Some(Seq::empty())
    } else {
        match stream_summary(events.drop_last()) {
            None => None,
            Some(s) => match events.last() {
                StreamEvent::Text(t) => Some(s + t@),
                StreamEvent::Failed => None,
                _ => Some(s),
            },
        }
    }
}

/// The summary that a finished stream gives: its text fragments concatenated,
/// or none where it failed.
pub fn collect_summary(events: &Vec<StreamEvent>) -> (r: Option<String>)
    ensures
        match r {
            Some(s) => stream_summary(events@) == Some(s@),
            None => stream_summary(events@) is None,
        },
{
    let mut summary = String::new();
    let mut i: usize = 0;
    while i < events.len()
        invariant
            i <= events@.len(),
            stream_summary(events@.subrange(0, i as int)) == Some(summary@),
        decreases events.len() - i,
    {
        let ghost sub = events@.subrange(0, i as int + 1);
        assert(sub.drop_last() =~= events@.subrange(0, i as int));
        if !absorb_stream_event(&mut summary, &events[i]) {
            assert(stream_summary(sub) is None);
            let mut j: usize = i + 1;
            while j < events.len()
                invariant
                    i < j <= events@.len(),
                    stream_summary(events@.subrange(0, j as int)) is None,
                decreases events.len() - j,
            {
                assert(events@.subrange(0, j as int + 1).drop_last() =~= events@.subrange(0, j as int));
                j += 1;
            }
            assert(events@.subrange(0, j as int) =~= events@);
            return None;
        }
        i += 1;
    }
    assert(events@.subrange(0, i as int) =~= events@);
    Some(summary)
}

} // verus!
