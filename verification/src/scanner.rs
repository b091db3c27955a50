//! The dump scan: a state machine over the XML events of one dump stream.
//!
//! The caller decompresses the dump and reads XML events; this module makes
//! every decision: which capture buffers are recording, what a closed
//! `<page>` element amounts to, and what is written for a genre page.

use vstd::prelude::*;
use vstd::string::StringSliceAdditionalSpecFns;
use vstd::utf8::encode_utf8;
use crate::page::PageName;
use crate::strutil::{str_eq, str_contains, spec_bytes_contains};
use crate::timestamp::{parse_timestamp, make_header, header_of, ts_of, ts_canon};

verus! {

broadcast use vstd::string::group_string_axioms;

/// One XML event of the dump stream, reduced to plain values: an element
/// start, text content, an empty element with its `title` attribute if any,
/// or an element end.
#[derive(Debug)]
pub enum PageEvent {
    ElementStart { name: String },
    TextContent { content: String },
    EmptyElement { name: String, title_attr: Option<String> },
    ElementEnd { name: String },
}

/// The capture state of the scan: the three text buffers, which of them is
/// recording, and the redirect target seen inside the current page, if any.
#[derive(Debug)]
pub struct ScanState {
    pub title: String,
    pub recording_title: bool,
    pub text: String,
    pub recording_text: bool,
    pub timestamp: String,
    pub recording_timestamp: bool,
    pub redirect: Option<String>,
}

/// What the close of a `<page>` element amounts to.
#[derive(Debug)]
pub enum PageOutcome {
    /// The page redirects elsewhere: record it in the redirect map.
    Redirect { source: PageName, target: PageName },
    /// The page is cached as a genre: write the header line and the body.
    Genre { title: PageName, header: String, text: String },
    /// The page is neither: nothing to do.
    Skip,
    /// A would-be genre page carries a timestamp that does not parse, which
    /// ends the run.
    BadTimestamp { title: PageName, raw: String },
}

/// The infobox marker that makes a page a genre candidate: the template name
/// with the leading letter left off, so that both capitalizations match.
pub open spec fn spec_infobox_marker() -> Seq<u8> {
    "nfobox music genre".spec_bytes()
}

/// The genre test: the body carries the infobox marker and the title has no
/// colon, so that pages of other namespaces are excluded.
pub open spec fn spec_is_genre_page(title: Seq<u8>, text: Seq<u8>) -> bool {
    spec_bytes_contains(text, spec_infobox_marker()) && !spec_bytes_contains(
        title,
        ":".spec_bytes(),
    )
}

/// The genre test over the scan state's buffers.
pub open spec fn spec_state_is_genre(s: ScanState) -> bool {
    spec_is_genre_page(encode_utf8(s.title@), encode_utf8(s.text@))
}

impl ScanState {
    /// An empty scan state, ready for the first event.
    pub fn new() -> (r: Self)
        ensures
            r.title@.len() == 0,
            r.text@.len() == 0,
            r.timestamp@.len() == 0,
            !r.recording_title,
            !r.recording_text,
            !r.recording_timestamp,
            r.redirect is None,
    {
        ScanState {
            title: String::new(),
            recording_title: false,
            text: String::new(),
            recording_text: false,
            timestamp: String::new(),
            recording_timestamp: false,
            redirect: None,
        }
    }
}

/// What the close of a page gives, over the state the scan reached: a
/// redirect when one was seen, else a cached genre when the genre test
/// passes and the timestamp parses.
pub open spec fn spec_page_outcome(s: ScanState, r: PageOutcome) -> bool {
    match s.redirect {
        Some(target) => r matches PageOutcome::Redirect { source, target: t } && source.0@
            == s.title@ && t.0@ == target@,
        None => {
            if spec_state_is_genre(s) {
                if ts_of(s.timestamp@) is Some {
                    r matches PageOutcome::Genre { title, header, text } && title.0@ == s.title@
                        && header@ == header_of(ts_canon(s.timestamp@)) && text@ == s.text@
                } else {
                    r matches PageOutcome::BadTimestamp { title, raw } && title.0@ == s.title@
                        && raw@ == s.timestamp@
                }
            } else {
                r is Skip
            }
        },
    }
}

/// Feeds one XML event to the scan. Only the close of a `<page>` element
/// produces an outcome; every other event only moves the capture state.
pub fn scan_event(state: &mut ScanState, ev: PageEvent) -> (r: Option<PageOutcome>)
    ensures
        match ev {
            PageEvent::ElementStart { name } => {
                &&& r is None
                &&& final(state).redirect == old(state).redirect
                &&& final(state).recording_title == (name@ == "title"@ || old(state).recording_title)
                &&& (name@ == "title"@ ==> final(state).title@.len() == 0
                    && final(state).recording_title)
                &&& (name@ != "title"@ ==> final(state).title@ == old(state).title@ && final(state).recording_title == old(state).recording_title)
                &&& (name@ == "text"@ ==> final(state).text@.len() == 0 && final(state).recording_text)
                &&& (name@ != "text"@ ==> final(state).text@ == old(state).text@ && final(state).recording_text == old(state).recording_text)
                &&& (name@ == "timestamp"@ ==> final(state).timestamp@.len() == 0 && final(state).recording_timestamp)
                &&& (name@ != "timestamp"@ ==> final(state).timestamp@ == old(state).timestamp@
                    && final(state).recording_timestamp == old(state).recording_timestamp)
            },
            PageEvent::TextContent { content } => {
                &&& r is None
                &&& final(state).redirect == old(state).redirect
                &&& final(state).recording_title == old(state).recording_title
                &&& final(state).recording_text == old(state).recording_text
                &&& final(state).recording_timestamp == old(state).recording_timestamp
                &&& (old(state).recording_title ==> final(state).title@ == old(state).title@
                    + content@ && final(state).text@ == old(state).text@ && final(state).timestamp@ == old(state).timestamp@)
                &&& (!old(state).recording_title && old(state).recording_text ==> final(state).text@ == old(state).text@ + content@ && final(state).title@ == old(state).title@ && final(state).timestamp@ == old(state).timestamp@)
                &&& (!old(state).recording_title && !old(state).recording_text && old(state).recording_timestamp ==> final(state).timestamp@ == old(state).timestamp@
                    + content@ && final(state).title@ == old(state).title@ && final(state).text@
                    == old(state).text@)
                &&& (!old(state).recording_title && !old(state).recording_text && !old(state).recording_timestamp ==> final(state).title@ == old(state).title@ && final(state).text@ == old(state).text@ && final(state).timestamp@ == old(state).timestamp@)
            },
            PageEvent::EmptyElement { name, title_attr } => {
                &&& r is None
                &&& final(state).title@ == old(state).title@
                &&& final(state).text@ == old(state).text@
                &&& final(state).timestamp@ == old(state).timestamp@
                &&& final(state).recording_title == old(state).recording_title
                &&& final(state).recording_text == old(state).recording_text
                &&& final(state).recording_timestamp == old(state).recording_timestamp
                &&& (name@ == "redirect"@ ==> final(state).redirect == title_attr)
                &&& (name@ != "redirect"@ ==> final(state).redirect == old(state).redirect)
            },
            PageEvent::ElementEnd { name } => {
                &&& final(state).title@ == old(state).title@
                &&& final(state).text@ == old(state).text@
                &&& final(state).timestamp@ == old(state).timestamp@
                &&& (name@ == "title"@ ==> !final(state).recording_title)
                &&& (name@ != "title"@ ==> final(state).recording_title == old(state).recording_title)
                &&& (name@ == "text"@ ==> !final(state).recording_text)
                &&& (name@ != "text"@ ==> final(state).recording_text == old(state).recording_text)
                &&& (name@ == "timestamp"@ ==> !final(state).recording_timestamp)
                &&& (name@ != "timestamp"@ ==> final(state).recording_timestamp == old(state).recording_timestamp)
                &&& (name@ == "page"@ ==> final(state).redirect is None && r is Some
                    && spec_page_outcome(*old(state), r->Some_0))
                &&& (name@ != "page"@ ==> final(state).redirect == old(state).redirect && r
                    is None)
            },
        },
{
    proof {
        reveal_strlit("title");
        reveal_strlit("text");
        reveal_strlit("timestamp");
        reveal_strlit("page");
        assert("title"@.len() == 5);
        assert("text"@.len() == 4);
        assert("timestamp"@.len() == 9);
        assert("page"@.len() == 4);
        assert("text"@[0] == 't');
        assert("page"@[0] == 'p');
        assert("title"@ != "text"@);
        assert("title"@ != "timestamp"@);
        assert("title"@ != "page"@);
        assert("text"@ != "timestamp"@);
        assert("text"@ != "page"@);
        assert("timestamp"@ != "page"@);
    }
    match ev {
        PageEvent::ElementStart { name } => {
            if str_eq(name.as_str(), "title") {
                state.title = String::new();
                state.recording_title = true;
            } else if str_eq(name.as_str(), "text") {
                state.text = String::new();
                state.recording_text = true;
            } else if str_eq(name.as_str(), "timestamp") {
                state.timestamp = String::new();
                state.recording_timestamp = true;
            }
            None
        },
        PageEvent::TextContent { content } => {
            if state.recording_title {
                state.title.append(content.as_str());
            } else if state.recording_text {
                state.text.append(content.as_str());
            } else if state.recording_timestamp {
                state.timestamp.append(content.as_str());
            }
            None
        },
        PageEvent::EmptyElement { name, title_attr } => {
            if str_eq(name.as_str(), "redirect") {
                state.redirect = title_attr;
            }
            None
        },
        PageEvent::ElementEnd { name } => {
            if str_eq(name.as_str(), "title") {
                state.recording_title = false;
                None
            } else if str_eq(name.as_str(), "text") {
                state.recording_text = false;
                None
            } else if str_eq(name.as_str(), "timestamp") {
                state.recording_timestamp = false;
                None
            } else if str_eq(name.as_str(), "page") {
                let outcome = close_page(state);
                Some(outcome)
            } else {
                None
            }
        },
    }
}

fn close_page(state: &mut ScanState) -> (r: PageOutcome)
    ensures
        final(state).title@ == old(state).title@,
        final(state).text@ == old(state).text@,
        final(state).timestamp@ == old(state).timestamp@,
        final(state).recording_title == old(state).recording_title,
        final(state).recording_text == old(state).recording_text,
        final(state).recording_timestamp == old(state).recording_timestamp,
        final(state).redirect is None,
        spec_page_outcome(*old(state), r),
{
    let mut redirect: Option<String> = None;
    core::mem::swap(&mut redirect, &mut state.redirect);
    match redirect {
        Some(target) => PageOutcome::Redirect {
            source: PageName(state.title.clone()),
            target: PageName(target),
        },
        None => {
            if str_contains(state.text.as_str(), "nfobox music genre") {
                if str_contains(state.title.as_str(), ":") {
                    PageOutcome::Skip
                } else {
                    match parse_timestamp(state.timestamp.as_str()) {
                        Some(ts) => {
                            let header = make_header(&ts);
                            PageOutcome::Genre {
                                title: PageName(state.title.clone()),
                                header,
                                text: state.text.clone(),
                            }
                        },
                        None => PageOutcome::BadTimestamp {
                            title: PageName(state.title.clone()),
                            raw: state.timestamp.clone(),
                        },
                    }
                }
            } else {
                PageOutcome::Skip
            }
        },
    }
}

} // verus!
