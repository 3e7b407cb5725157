use vstd::prelude::*;

use crate::outside::{millis_since_epoch, random_id};

verus! {

/// What a content item holds, as text.
pub enum ContentItem {
    Text(Seq<char>),
    Image(Seq<char>),
}

/// What a message's content holds.
pub enum ContentView {
    Single(ContentItem),
    Multiple(Seq<ContentItem>),
}

/// One content item: a piece of text or the URL of an image.
#[derive(Clone, Debug)]
pub enum ContentKind {
    Text { text: String },
    Image { url: String },
}

impl View for ContentKind {
    type V = ContentItem;

    open spec fn view(&self) -> ContentItem {
        match self {
            ContentKind::Text { text } => ContentItem::Text(text@),
            ContentKind::Image { url } => ContentItem::Image(url@),
        }
    }
}

impl ContentKind {
    pub fn duplicate(&self) -> (r: ContentKind)
        ensures
            r@ == self@,
    {
        match self {
            ContentKind::Text { text } => ContentKind::Text { text: text.clone() },
            ContentKind::Image { url } => ContentKind::Image { url: url.clone() },
        }
    }
}

/// A message's content: one item, or an ordered list of items.
#[derive(Clone, Debug)]
pub enum Content {
    Single(ContentKind),
    Multiple(Vec<ContentKind>),
}

pub open spec fn items_view(v: Seq<ContentKind>) -> Seq<ContentItem> {
    v.map_values(|k: ContentKind| k@)
}

impl View for Content {
    type V = ContentView;

    open spec fn view(&self) -> ContentView {
        match self {
            Content::Single(k) => ContentView::Single(k@),
            Content::Multiple(ks) => ContentView::Multiple(items_view(ks@)),
        }
    }
}

pub fn duplicate_items(items: &Vec<ContentKind>) -> (r: Vec<ContentKind>)
    ensures
        items_view(r@) == items_view(items@),
{
    let mut r: Vec<ContentKind> = Vec::new();
    let mut i: usize = 0;
    while i < items.len()
        invariant
            i <= items.len(),
            r@.len() == i,
            forall|j: int| 0 <= j < i ==> #[trigger] r@[j]@ == items@[j]@,
        decreases items.len() - i,
    {
        r.push(items[i].duplicate());
        i += 1;
    }
    assert(items_view(r@) =~= items_view(items@));
    r
}

impl Content {
    /// A single text item.
    pub fn from_text(text: String) -> (r: Content)
        ensures
            r@ == ContentView::Single(ContentItem::Text(text@)),
    {
        Content::Single(ContentKind::Text { text })
    }

    /// A list of text items, one for each string, in order.
    pub fn from_texts(texts: Vec<String>) -> (r: Content)
        ensures
            r@ == ContentView::Multiple(texts@.map_values(|t: String| ContentItem::Text(t@))),
    {
        let mut items: Vec<ContentKind> = Vec::new();
        let mut i: usize = 0;
        while i < texts.len()
            invariant
                i <= texts.len(),
                items@.len() == i,
                forall|j: int| 0 <= j < i ==> #[trigger] items@[j]@ == ContentItem::Text(texts@[j]@),
            decreases texts.len() - i,
        {
            items.push(ContentKind::Text { text: texts[i].clone() });
            i += 1;
        }
        assert(items_view(items@) =~= texts@.map_values(|t: String| ContentItem::Text(t@)));
        Content::Multiple(items)
    }

    pub fn duplicate(&self) -> (r: Content)
        ensures
            r@ == self@,
    {
        match self {
            Content::Single(k) => Content::Single(k.duplicate()),
            Content::Multiple(ks) => Content::Multiple(duplicate_items(ks)),
        }
    }
}

impl From<String> for Content {
    fn from(text: String) -> (r: Content) {
        Content::Single(ContentKind::Text { text })
    }
}

impl vstd::std_specs::convert::FromSpecImpl<String> for Content {
    open spec fn obeys_from_spec() -> bool {
        true
    }

    open spec fn from_spec(text: String) -> Content {
        Content::Single(ContentKind::Text { text })
    }
}

/// An embedding vector: each component is the IEEE-754 bit pattern of an `f32`.
pub type Embedding = Vec<u32>;

pub fn duplicate_embedding(e: &Embedding) -> (r: Embedding)
    ensures
        r@ == e@,
{
    let mut r: Vec<u32> = Vec::new();
    let mut i: usize = 0;
    while i < e.len()
        invariant
            i <= e.len(),
            r@ == e@.subrange(0, i as int),
        decreases e.len() - i,
    {
        r.push(e[i]);
        i += 1;
        assert(r@ =~= e@.subrange(0, i as int));
    }
    assert(e@.subrange(0, i as int) =~= e@);
    r
}

pub fn duplicate_optional_embedding(e: &Option<Embedding>) -> (r: Option<Embedding>)
    ensures
        embedding_view(r) == embedding_view(*e),
{
    match e {
        Some(v) => Some(duplicate_embedding(v)),
        None => None,
    }
}

pub open spec fn embedding_view(e: Option<Embedding>) -> Option<Seq<u32>> {
    match e {
        Some(v) => Some(v@),
        None => None,
    }
}

/// What a stored message holds.
pub struct MessageView {
    pub id: u128,
    pub thread_id: u128,
    pub content: ContentView,
    pub created_at: u128,
    pub embedding: Option<Seq<u32>>,
}

/// A message of a thread. `created_at` counts milliseconds since the Unix epoch.
#[derive(Clone, Debug)]
pub struct Message {
    pub id: u128,
    pub thread_id: u128,
    pub content: Content,
    pub created_at: u128,
    pub embedding: Option<Embedding>,
}

impl View for Message {
    type V = MessageView;

    open spec fn view(&self) -> MessageView {
        MessageView {
            id: self.id,
            thread_id: self.thread_id,
            content: self.content@,
            created_at: self.created_at,
            embedding: embedding_view(self.embedding),
        }
    }
}

impl Message {
    pub fn new(id: u128, thread_id: u128, content: Content, created_at: u128) -> (r: Message)
        ensures
            r@ == (MessageView {
                id,
                thread_id,
                content: content@,
                created_at,
                embedding: None,
            }),
    {
        Message { id, thread_id, content, created_at, embedding: None }
    }

    pub fn id(&self) -> (r: u128)
        ensures
            r == self.id,
    {
        self.id
    }

    pub fn duplicate(&self) -> (r: Message)
        ensures
            r@ == self@,
    {
        Message {
            id: self.id,
            thread_id: self.thread_id,
            content: self.content.duplicate(),
            created_at: self.created_at,
            embedding: duplicate_optional_embedding(&self.embedding),
        }
    }
}

/// The body of a request that creates a message.
#[derive(Clone, Debug)]
pub struct CreateMessage {
    pub content: Content,
}

/// The body of a request that replaces a message's content.
#[derive(Clone, Debug)]
pub struct UpdateMessage {
    pub content: Content,
}

/// The current time in milliseconds since the Unix epoch; zero where the clock
/// stands before it.
pub fn now_millis() -> (r: u128) {
    match millis_since_epoch() {
        Some(t) => t,
        None => 0,
    }
}

impl CreateMessage {
    /// The message that this body makes in the given thread, with a fresh random
    /// id and the current time.
    pub fn into_message(self, thread_id: u128) -> (r: Message)
        ensures
            r.thread_id == thread_id,
            r@.content == self.content@,
            r@.embedding is None,
    {
        let id = random_id();
        let now = now_millis();
        Message::new(id, thread_id, self.content, now)
    }
}

} // verus!
