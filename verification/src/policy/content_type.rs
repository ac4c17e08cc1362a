//! The kinds of request that Gecko's `nsIContentPolicy` tells apart.

use vstd::prelude::*;

verus! {

pub const TYPE_OTHER: u32 = 1;

pub const TYPE_SCRIPT: u32 = 2;

pub const TYPE_IMAGE: u32 = 3;

pub const TYPE_STYLESHEET: u32 = 4;

pub const TYPE_OBJECT: u32 = 5;

/// A page that the user navigates to.
pub const TYPE_DOCUMENT: u32 = 6;

/// A page inside a page.
pub const TYPE_SUBDOCUMENT: u32 = 7;

pub const TYPE_PING: u32 = 10;

pub const TYPE_XMLHTTPREQUEST: u32 = 11;

pub const TYPE_OBJECT_SUBREQUEST: u32 = 12;

pub const TYPE_FONT: u32 = 14;

pub const TYPE_MEDIA: u32 = 15;

pub const TYPE_WEBSOCKET: u32 = 19;

pub const TYPE_CSP_REPORT: u32 = 20;

pub const TYPE_FETCH: u32 = 22;

pub const TYPE_IMAGESET: u32 = 23;

pub const TYPE_WEB_MANIFEST: u32 = 25;

pub const TYPE_SPECULATIVE: u32 = 26;

pub const TYPE_WEB_TRANSPORT: u32 = 31;

} // verus!
