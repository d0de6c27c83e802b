//! Links found in chat messages, and which of them are kept as image
//! attachments once their content type is known.

use vstd::prelude::*;
use crate::collections::key_views;

verus! {

/// A link posted in a message, waiting to be checked for an image.
#[derive(Debug)]
pub struct AttachmentInfo {
    pub channel_id: i64,
    pub message_id: i64,
    pub url: String,
    pub mime: String,
}

/// `hay` contains `needle` as a contiguous piece.
pub open spec fn has_substring(hay: Seq<char>, needle: Seq<char>) -> bool {
    exists|i: int| 0 <= i <= hay.len() - needle.len() && #[trigger] hay.subrange(i, i + needle.len()) == needle
}

/// `str::contains` of std with a string pattern: whether `needle` occurs
/// in `hay` as a contiguous piece.
#[verifier::external_body]
fn str_contains(hay: &str, needle: &str) -> (r: bool)
    ensures
        r == has_substring(hay@, needle@),
{
    hay.contains(needle)
}

/// The URL links that linkify finds in a text, in the order it reports them.
pub uninterp spec fn url_links(text: Seq<char>) -> Seq<Seq<char>>;

/// linkify's `LinkFinder`, restricted to URLs by `kinds(&[LinkKind::Url])`,
/// run over `text`; each link's `as_str` is copied out. The result is
/// named, not described: linkify's URL grammar is not restated here.
#[verifier::external_body]
fn find_url_links(text: &str) -> (r: Vec<String>)
    ensures
        key_views(r@) == url_links(text@),
{
    let mut finder = linkify::LinkFinder::new();
    finder.kinds(&[linkify::LinkKind::Url]);
    let mut out = Vec::new();
    for link in finder.links(text) {
        out.push(link.as_str().to_string());
    }
    out
}

impl AttachmentInfo {
    pub fn new(channel_id: i64, message_id: i64, url: &str) -> (r: Self)
        ensures
            r.channel_id == channel_id,
            r.message_id == message_id,
            r.url@ == url@,
            r.mime@ == Seq::<char>::empty(),
    {
        AttachmentInfo { channel_id, message_id, url: url.to_owned(), mime: String::new() }
    }

    /// Given the content type that the link's server answered with (if it
    /// gave one), keeps the attachment only when the type mentions "image",
    /// with the type recorded as its mime.
    pub fn accept_content_type(self, content_type: Option<String>) -> (r: Option<AttachmentInfo>)
        ensures
            r is Some <==> (content_type matches Some(ct) && has_substring(ct@, "image"@)),
            r matches Some(a) ==> a.channel_id == self.channel_id && a.message_id == self.message_id
                && a.url == self.url && Some(a.mime) == content_type,
    {
        match content_type {
            Some(ct) => {
                if str_contains(ct.as_str(), "image") {
                    let mut info = self;
                    info.mime = ct;
                    Some(info)
                } else {
                    None
                }
            },
            None => None,
        }
    }
}

/// One attachment request per link, all for the given message.
pub fn attachments_for_links(channel_id: i64, message_id: i64, links: &Vec<String>) -> (r: Vec<
    AttachmentInfo,
>)
    ensures
        r@.len() == links@.len(),
        forall|i: int|
            0 <= i < r@.len() ==> (#[trigger] r@[i]).channel_id == channel_id && r@[i].message_id
                == message_id && r@[i].url@ == links@[i]@ && r@[i].mime@ == Seq::<char>::empty(),
{
    let mut r: Vec<AttachmentInfo> = Vec::new();
    let n = links.len();
    for i in 0..n
        invariant
            n == links@.len(),
            r@.len() == i,
            forall|j: int|
                0 <= j < i ==> (#[trigger] r@[j]).channel_id == channel_id && r@[j].message_id
                    == message_id && r@[j].url@ == links@[j]@ && r@[j].mime@ == Seq::<char>::empty(),
    {
        r.push(AttachmentInfo::new(channel_id, message_id, links[i].as_str()));
    }
    r
}

/// The attachment requests for a new message: one per URL link in its text.
pub fn query_links(channel_id: i64, message_id: i64, content: &str) -> (r: Vec<AttachmentInfo>)
    ensures
        r@.len() == url_links(content@).len(),
        forall|i: int|
            0 <= i < r@.len() ==> (#[trigger] r@[i]).channel_id == channel_id && r@[i].message_id
                == message_id && r@[i].url@ == url_links(content@)[i] && r@[i].mime@ == Seq::<
                char,
            >::empty(),
{
    let links = find_url_links(content);
    assert(links@.len() == key_views(links@).len());
    assert forall|i: int| 0 <= i < links@.len() implies links@[i]@ == url_links(content@)[i] by {
        assert(key_views(links@)[i] == links@[i]@);
    }
    attachments_for_links(channel_id, message_id, &links)
}

} // verus!
