//! Static resources and collections of them.
use vstd::prelude::*;
use crate::error::{Error, ErrorCode};
use crate::server::simple_prompt::opt_view;
use crate::server::validation::str_eq;
use crate::shared::simd_parsing::{b64_encode, b64_encode_string};
use crate::text::{chars_of, extend_chars, string_of};

verus! {

/// Content of a resource.
#[derive(Debug, Clone)]
pub enum Content {
    /// Text content
    Text {
        /// The text
        text: String,
    },
    /// Image content, Base64 encoded
    Image {
        /// The encoded image
        data: String,
        /// The image's MIME type
        mime_type: String,
    },
}

/// The description of a resource.
#[derive(Debug, Clone)]
pub struct ResourceInfo {
    /// Resource URI
    pub uri: String,
    /// Resource name
    pub name: String,
    /// Resource description
    pub description: Option<String>,
    /// MIME type
    pub mime_type: Option<String>,
}

/// The last segment of a URI: what follows its last `/`, or all of it.
pub open spec fn last_segment(s: Seq<char>) -> Seq<char>
    decreases s.len(),
{
    if s.len() == 0 {
        s
    } else if s.last() == '/' {
        Seq::empty()
    } else {
        last_segment(s.drop_last()).push(s.last())
    }
}

/// The view of content: its kind and texts.
pub open spec fn content_view(c: Content) -> (bool, Seq<char>, Seq<char>) {
    match c {
        Content::Text { text } => (true, text@, Seq::empty()),
        Content::Image { data, mime_type } => (false, data@, mime_type@),
    }
}

/// The view of a resource description.
pub open spec fn info_view(i: ResourceInfo) -> (Seq<char>, Seq<char>, Option<Seq<char>>, Option<Seq<char>>) {
    (i.uri@, i.name@, opt_view(i.description), opt_view(i.mime_type))
}

fn clone_opt(s: &Option<String>) -> (r: Option<String>)
    ensures
        opt_view(r) == opt_view(*s),
{
    match s {
        Some(t) => Some(t.clone()),
        None => None,
    }
}

fn clone_content(c: &Content) -> (r: Content)
    ensures
        content_view(r) == content_view(*c),
{
    match c {
        Content::Text { text } => Content::Text { text: text.clone() },
        Content::Image { data, mime_type } => Content::Image { data: data.clone(), mime_type: mime_type.clone() },
    }
}

/// The last segment of a URI.
fn last_segment_of(uri: &str) -> (r: String)
    ensures
        r@ == last_segment(uri@),
{
    let cs = chars_of(uri);
    let mut i = cs.len();
    while i > 0 && cs[i - 1] != '/'
        invariant
            i <= cs@.len(),
            cs@ == uri@,
            forall|j: int| i <= j < cs@.len() ==> cs@[j] != '/',
        decreases i,
    {
        i = i - 1;
    }
    proof {
        lemma_last_segment(cs@, i as int);
    }
    string_of(&cs.as_slice()[i..cs.len()])
}

proof fn lemma_last_segment(s: Seq<char>, i: int)
    requires
        0 <= i <= s.len(),
        forall|j: int| i <= j < s.len() ==> s[j] != '/',
        i == 0 || s[i - 1] == '/',
    ensures
        last_segment(s) == s.subrange(i, s.len() as int),
    decreases s.len(),
{
    if s.len() > i {
        assert forall|j: int| i <= j < s.drop_last().len() implies s.drop_last()[j] != '/' by {
            assert(s.drop_last()[j] == s[j]);
        }
        if i > 0 {
            assert(s.drop_last()[i - 1] == s[i - 1]);
        }
        lemma_last_segment(s.drop_last(), i);
        assert(s.drop_last().subrange(i, s.len() - 1).push(s.last()) == s.subrange(i, s.len() as int));
    } else if i > 0 {
        assert(s.last() == s[i - 1]);
        assert(s.subrange(i, s.len() as int) == Seq::<char>::empty());
    } else {
        assert(s.subrange(i, s.len() as int) == s);
    }
}

/// A static resource that returns fixed content.
#[derive(Debug, Clone)]
pub struct StaticResource {
    uri: String,
    name: String,
    description: Option<String>,
    mime_type: Option<String>,
    content: Content,
}

impl StaticResource {
    /// URI, name, description and MIME type.
    pub closed spec fn info_parts(&self) -> (Seq<char>, Seq<char>, Option<Seq<char>>, Option<Seq<char>>) {
        (self.uri@, self.name@, opt_view(self.description), opt_view(self.mime_type))
    }

    /// The content.
    pub closed spec fn content_parts(&self) -> (bool, Seq<char>, Seq<char>) {
        content_view(self.content)
    }

    /// A text resource, named by the last segment of its URI, `text/plain`.
    pub fn new_text(uri: String, content: String) -> (r: StaticResource)
        ensures
            r.info_parts() == (uri@, last_segment(uri@), None::<Seq<char>>, Some("text/plain"@)),
            r.content_parts() == (true, content@, Seq::<char>::empty()),
    {
        let name = last_segment_of(uri.as_str());
        StaticResource {
            uri,
            name,
            description: None,
            mime_type: Some("text/plain".to_owned()),
            content: Content::Text { text: content },
        }
    }

    /// An image resource, named by the last segment of its URI, holding the
    /// Base64 encoding of the data.
    pub fn new_image(uri: String, data: Vec<u8>, mime_type: String) -> (r: StaticResource)
        ensures
            r.info_parts() == (uri@, last_segment(uri@), None::<Seq<char>>, Some(mime_type@)),
            r.content_parts() == (false, b64_encode(data@), mime_type@),
    {
        let name = last_segment_of(uri.as_str());
        let encoded = b64_encode_string(data.as_slice());
        StaticResource {
            uri,
            name,
            description: None,
            mime_type: Some(mime_type.clone()),
            content: Content::Image { data: encoded, mime_type },
        }
    }

    /// Set the resource name.
    pub fn with_name(self, name: String) -> (r: StaticResource)
        ensures
            r.info_parts() == (self.info_parts().0, name@, self.info_parts().2, self.info_parts().3),
            r.content_parts() == self.content_parts(),
    {
        StaticResource { name, ..self }
    }

    /// Set the resource description.
    pub fn with_description(self, description: String) -> (r: StaticResource)
        ensures
            r.info_parts() == (self.info_parts().0, self.info_parts().1, Some(description@), self.info_parts().3),
            r.content_parts() == self.content_parts(),
    {
        StaticResource { description: Some(description), ..self }
    }

    /// Set the MIME type.
    pub fn with_mime_type(self, mime_type: String) -> (r: StaticResource)
        ensures
            r.info_parts() == (self.info_parts().0, self.info_parts().1, self.info_parts().2, Some(mime_type@)),
            r.content_parts() == self.content_parts(),
    {
        StaticResource { mime_type: Some(mime_type), ..self }
    }

    /// Get the resource info.
    pub fn info(&self) -> (i: ResourceInfo)
        ensures
            info_view(i) == self.info_parts(),
    {
        ResourceInfo {
            uri: self.uri.clone(),
            name: self.name.clone(),
            description: clone_opt(&self.description),
            mime_type: clone_opt(&self.mime_type),
        }
    }

    /// Get the resource URI.
    pub fn uri(&self) -> (u: &str)
        ensures
            u@ == self.info_parts().0,
    {
        self.uri.as_str()
    }

    /// The content.
    pub fn content(&self) -> (c: Content)
        ensures
            content_view(c) == self.content_parts(),
    {
        clone_content(&self.content)
    }
}

/// The position of the resource with URI `uri`.
pub open spec fn find_uri(s: Seq<StaticResource>, uri: Seq<char>) -> Option<int>
    decreases s.len(),
{
    if s.len() == 0 {
        None
    } else if s[0].info_parts().0 == uri {
        Some(0)
    } else {
        match find_uri(s.drop_first(), uri) {
            Some(i) => Some(i + 1),
            None => None,
        }
    }
}

/// No two resources share a URI.
pub open spec fn distinct_uris(s: Seq<StaticResource>) -> bool {
    forall|i: int, j: int| 0 <= i < j < s.len() ==> s[i].info_parts().0 != s[j].info_parts().0
}

proof fn lemma_find_uri(s: Seq<StaticResource>, uri: Seq<char>)
    ensures
        match find_uri(s, uri) {
            Some(i) => 0 <= i < s.len() && s[i].info_parts().0 == uri && forall|j: int| 0 <= j < i ==> s[j].info_parts().0 != uri,
            None => forall|j: int| 0 <= j < s.len() ==> s[j].info_parts().0 != uri,
        },
    decreases s.len(),
{
    if s.len() > 0 {
        lemma_find_uri(s.drop_first(), uri);
        assert forall|j: int| 1 <= j < s.len() implies s[j] == s.drop_first()[j - 1] by {}
    }
}

proof fn lemma_find_uri_at(s: Seq<StaticResource>, uri: Seq<char>, i: int)
    requires
        0 <= i < s.len(),
        s[i].info_parts().0 == uri,
        forall|j: int| 0 <= j < i ==> s[j].info_parts().0 != uri,
    ensures
        find_uri(s, uri) == Some(i),
{
    lemma_find_uri(s, uri);
    match find_uri(s, uri) {
        Some(k) => {
            if k < i {
            } else if k > i {
            }
        },
        None => {},
    }
}

/// The resources after adding `r`: it replaces the one with its URI, or
/// comes last.
pub open spec fn with_resource(s: Seq<StaticResource>, r: StaticResource) -> Seq<StaticResource> {
    match find_uri(s, r.info_parts().0) {
        Some(i) => s.update(i, r),
        None => s.push(r),
    }
}

/// A collection of resources, at most one per URI.
#[derive(Debug)]
pub struct ResourceCollection {
    resources: Vec<StaticResource>,
}

impl ResourceCollection {
    /// The resources, in the order they were first added.
    pub closed spec fn resources(&self) -> Seq<StaticResource> {
        self.resources@
    }

    /// No URI occurs twice.
    #[verifier::type_invariant]
    closed spec fn one_per_uri(self) -> bool {
        distinct_uris(self.resources@)
    }

    /// Create a new empty resource collection.
    pub fn new() -> (c: ResourceCollection)
        ensures
            c.resources() == Seq::<StaticResource>::empty(),
            distinct_uris(c.resources()),
    {
        ResourceCollection { resources: Vec::new() }
    }

    fn position(&self, uri: &str) -> (r: Option<usize>)
        ensures
            match r {
                Some(i) => i < self.resources().len() && find_uri(self.resources(), uri@) == Some(i as int),
                None => find_uri(self.resources(), uri@) is None,
            },
    {
        let mut i: usize = 0;
        while i < self.resources.len()
            invariant
                i <= self.resources@.len(),
                forall|j: int| 0 <= j < i ==> self.resources@[j].info_parts().0 != uri@,
            decreases self.resources@.len() - i,
        {
            if str_eq(self.resources[i].uri.as_str(), uri) {
                proof {
                    lemma_find_uri_at(self.resources@, uri@, i as int);
                }
                return Some(i);
            }
            i = i + 1;
        }
        proof {
            lemma_find_uri(self.resources@, uri@);
        }
        None
    }

    /// Add a resource, replacing the one with the same URI.
    pub fn add_resource(self, resource: StaticResource) -> (c: ResourceCollection)
        ensures
            c.resources() == with_resource(self.resources(), resource),
            distinct_uris(c.resources()),
    {
        proof {
            use_type_invariant(&self);
            lemma_with_resource_distinct(self.resources@, resource);
        }
        let pos = self.position(resource.uri.as_str());
        let mut v = self.resources;
        match pos {
            Some(i) => {
                v.set(i, resource);
            },
            None => {
                v.push(resource);
            },
        }
        ResourceCollection { resources: v }
    }

    /// Add resources in order, each replacing the one with its URI.
    pub fn add_resources(self, resources: Vec<StaticResource>) -> (c: ResourceCollection)
        ensures
            c.resources() == add_all(self.resources(), resources@),
            distinct_uris(c.resources()),
    {
        proof {
            use_type_invariant(&self);
        }
        let mut c = self;
        let mut rest = resources;
        let ghost all = rest@;
        let ghost start = c.resources@;
        assert(all.subrange(0, 0) == Seq::<StaticResource>::empty());
        assert(all.subrange(0, all.len() as int) == all);
        while rest.len() > 0
            invariant
                rest@.len() <= all.len(),
                rest@ == all.subrange(all.len() - rest@.len(), all.len() as int),
                c.resources@ == add_all(start, all.subrange(0, all.len() - rest@.len())),
                distinct_uris(c.resources@),
            decreases rest@.len(),
        {
            let ghost k = all.len() - rest@.len();
            let r = rest.remove(0);
            assert(all[k] == r);
            assert(rest@ == all.subrange(k + 1, all.len() as int));
            proof {
                lemma_add_all_push(start, all.subrange(0, k), r);
                assert(all.subrange(0, k).push(r) == all.subrange(0, k + 1));
            }
            c = c.add_resource(r);
        }
        c
    }

    /// Get a resource by URI.
    pub fn get(&self, uri: &str) -> (r: Option<&StaticResource>)
        ensures
            match r {
                Some(x) => find_uri(self.resources(), uri@) matches Some(i) && 0 <= i < self.resources().len() && *x == self.resources()[i],
                None => find_uri(self.resources(), uri@) is None,
            },
    {
        match self.position(uri) {
            Some(i) => Some(&self.resources[i]),
            None => None,
        }
    }

    /// List all resources.
    pub fn list(&self) -> (v: Vec<ResourceInfo>)
        ensures
            distinct_uris(self.resources()),
            v@.len() == self.resources().len(),
            forall|i: int| 0 <= i < v@.len() ==> info_view(#[trigger] v@[i]) == self.resources()[i].info_parts(),
    {
        proof {
            use_type_invariant(self);
        }
        let mut v: Vec<ResourceInfo> = Vec::new();
        let mut i: usize = 0;
        while i < self.resources.len()
            invariant
                i <= self.resources@.len(),
                v@.len() == i,
                forall|j: int| 0 <= j < i ==> info_view(#[trigger] v@[j]) == self.resources@[j].info_parts(),
            decreases self.resources@.len() - i,
        {
            v.push(self.resources[i].info());
            i = i + 1;
        }
        v
    }

    /// Read a resource's content; an unknown URI is an invalid-parameters
    /// error "Resource not found: " and the URI.
    pub fn read(&self, uri: &str) -> (r: Result<Content, Error>)
        ensures
            match find_uri(self.resources(), uri@) {
                Some(i) => r matches Ok(c) && content_view(c) == self.resources()[i].content_parts(),
                None => r matches Err(Error::Protocol { code, message, data }) && code == ErrorCode(-32602i32)
                    && message@ == "Resource not found: "@ + uri@ && data is None,
            },
    {
        match self.position(uri) {
            Some(i) => {
                proof {
                    lemma_find_uri(self.resources@, uri@);
                }
                Ok(self.resources[i].content())
            },
            None => {
                let mut text: Vec<char> = Vec::new();
                extend_chars(&mut text, "Resource not found: ");
                extend_chars(&mut text, uri);
                let msg = string_of(text.as_slice());
                Err(Error::protocol(ErrorCode::INVALID_PARAMS(), msg.as_str()))
            },
        }
    }
}

/// The resources after adding several in order.
pub open spec fn add_all(s: Seq<StaticResource>, rs: Seq<StaticResource>) -> Seq<StaticResource>
    decreases rs.len(),
{
    if rs.len() == 0 {
        s
    } else {
        with_resource(add_all(s, rs.drop_last()), rs.last())
    }
}

proof fn lemma_add_all_push(s: Seq<StaticResource>, rs: Seq<StaticResource>, r: StaticResource)
    ensures
        add_all(s, rs.push(r)) == with_resource(add_all(s, rs), r),
{
    assert(rs.push(r).drop_last() == rs);
}

/// Adding keeps URIs distinct.
pub proof fn lemma_with_resource_distinct(s: Seq<StaticResource>, r: StaticResource)
    requires
        distinct_uris(s),
    ensures
        distinct_uris(with_resource(s, r)),
{
    lemma_find_uri(s, r.info_parts().0);
    let t = with_resource(s, r);
    assert forall|i: int, j: int| 0 <= i < j < t.len() implies t[i].info_parts().0 != t[j].info_parts().0 by {
        match find_uri(s, r.info_parts().0) {
            Some(k) => {
                if i == k {
                    assert(s[j].info_parts().0 != s[k].info_parts().0);
                } else if j == k {
                    assert(s[i].info_parts().0 != s[k].info_parts().0);
                }
            },
            None => {},
        }
    }
}

/// What is read after adding a resource is that resource, and what other
/// URIs read is unchanged.
pub proof fn lemma_read_after_add(s: Seq<StaticResource>, r: StaticResource, uri: Seq<char>)
    requires
        distinct_uris(s),
    ensures
        find_uri(with_resource(s, r), r.info_parts().0) matches Some(i) && with_resource(s, r)[i] == r,
        uri != r.info_parts().0 ==> match find_uri(s, uri) {
            Some(i) => find_uri(with_resource(s, r), uri) == Some(i) && with_resource(s, r)[i] == s[i],
            None => find_uri(with_resource(s, r), uri) is None,
        },
{
    let t = with_resource(s, r);
    let k0 = r.info_parts().0;
    lemma_find_uri(s, k0);
    lemma_find_uri(s, uri);
    lemma_with_resource_distinct(s, r);
    match find_uri(s, k0) {
        Some(k) => {
            lemma_find_uri_at(t, k0, k);
        },
        None => {
            lemma_find_uri_at(t, k0, s.len() as int);
        },
    }
    if uri != k0 {
        match find_uri(s, uri) {
            Some(i) => {
                lemma_find_uri_at(t, uri, i);
            },
            None => {
                lemma_find_uri(t, uri);
                match find_uri(t, uri) {
                    Some(i) => {
                        if i < s.len() {
                            assert(t[i] == s[i] || t[i] == r);
                        }
                    },
                    None => {},
                }
            },
        }
    }
}

/// A resource handler that answers reads and listings by callbacks.
pub struct DynamicResourceHandler<R, L> {
    read_handler: R,
    list_handler: L,
}

impl<R, L> DynamicResourceHandler<R, L> {
    /// The read callback.
    pub closed spec fn read_fn(&self) -> R {
        self.read_handler
    }

    /// The list callback.
    pub closed spec fn list_fn(&self) -> L {
        self.list_handler
    }

    /// Create a new dynamic resource handler.
    pub fn new(read_handler: R, list_handler: L) -> (h: DynamicResourceHandler<R, L>)
        ensures
            h.read_fn() == read_handler,
            h.list_fn() == list_handler,
    {
        DynamicResourceHandler { read_handler, list_handler }
    }

    /// The read callback.
    pub fn read_handler(&self) -> (r: &R)
        ensures
            *r == self.read_fn(),
    {
        &self.read_handler
    }

    /// The list callback.
    pub fn list_handler(&self) -> (l: &L)
        ensures
            *l == self.list_fn(),
    {
        &self.list_handler
    }
}

} // verus!
