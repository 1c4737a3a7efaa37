//! The plain data the library works on, each type with its mathematical view.

use vstd::prelude::*;

verus! {

/// A content encoding under which an asset can be served.
#[derive(Clone, Copy, Debug, PartialEq, Eq, Structural)]
pub enum Encoding {
    Identity,
    Gzip,
    Brotli,
}

impl View for Encoding {
    type V = Encoding;

    open spec fn view(&self) -> Encoding {
        *self
    }
}

impl DeepView for Encoding {
    type V = Encoding;

    open spec fn deep_view(&self) -> Encoding {
        *self
    }
}

impl Encoding {
    /// What is appended to an asset's path to name the file that holds the
    /// asset in this encoding.
    pub open spec fn suffix_spec(self) -> Seq<char> {
        match self {
            Encoding::Identity => Seq::empty(),
            Encoding::Gzip => seq!['.', 'g', 'z'],
            Encoding::Brotli => seq!['.', 'b', 'r'],
        }
    }

    /// The value of the `content-encoding` header for this encoding.
    pub open spec fn token_spec(self) -> Seq<char> {
        match self {
            Encoding::Identity => seq!['i', 'd', 'e', 'n', 't', 'i', 't', 'y'],
            Encoding::Gzip => seq!['g', 'z', 'i', 'p'],
            Encoding::Brotli => seq!['b', 'r'],
        }
    }

    pub fn suffix(self) -> (s: &'static str)
        ensures
            s@ == self.suffix_spec(),
    {
        match self {
            Encoding::Identity => {
                proof {
                    reveal_strlit("");
                }
                assert(""@ =~= Seq::<char>::empty());
                ""
            },
            Encoding::Gzip => {
                proof {
                    reveal_strlit(".gz");
                }
                assert(".gz"@ =~= seq!['.', 'g', 'z']);
                ".gz"
            },
            Encoding::Brotli => {
                proof {
                    reveal_strlit(".br");
                }
                assert(".br"@ =~= seq!['.', 'b', 'r']);
                ".br"
            },
        }
    }

    pub fn token(self) -> (s: &'static str)
        ensures
            s@ == self.token_spec(),
    {
        match self {
            Encoding::Identity => {
                proof {
                    reveal_strlit("identity");
                }
                assert("identity"@ =~= seq!['i', 'd', 'e', 'n', 't', 'i', 't', 'y']);
                "identity"
            },
            Encoding::Gzip => {
                proof {
                    reveal_strlit("gzip");
                }
                assert("gzip"@ =~= seq!['g', 'z', 'i', 'p']);
                "gzip"
            },
            Encoding::Brotli => {
                proof {
                    reveal_strlit("br");
                }
                assert("br"@ =~= seq!['b', 'r']);
                "br"
            },
        }
    }
}

/// One file of the asset store: where it lies and what it holds.
#[derive(Clone, Debug, PartialEq, Eq)]
pub struct Asset {
    pub path: String,
    pub content: Vec<u8>,
}

pub struct AssetView {
    pub path: Seq<char>,
    pub content: Seq<u8>,
}

impl View for Asset {
    type V = AssetView;

    open spec fn view(&self) -> AssetView {
        AssetView { path: self.path@, content: self.content@ }
    }
}

impl DeepView for Asset {
    type V = AssetView;

    open spec fn deep_view(&self) -> AssetView {
        self@
    }
}

/// A request to answer every otherwise unmatched path under `scope` with
/// the response of one file, under the given status code.
#[derive(Clone, Debug, PartialEq, Eq)]
pub struct Fallback {
    pub scope: String,
    pub status_code: u16,
}

pub struct FallbackView {
    pub scope: Seq<char>,
    pub status_code: u16,
}

impl View for Fallback {
    type V = FallbackView;

    open spec fn view(&self) -> FallbackView {
        FallbackView { scope: self.scope@, status_code: self.status_code }
    }
}

impl DeepView for Fallback {
    type V = FallbackView;

    open spec fn deep_view(&self) -> FallbackView {
        self@
    }
}

/// A configuration rule. A file rule names one asset by its path; a pattern
/// rule is a default for every asset whose path its glob matches.
#[derive(Clone, Debug, PartialEq, Eq)]
pub enum Rule {
    File {
        path: String,
        content_type: Option<String>,
        headers: Vec<(String, String)>,
        fallback_for: Vec<Fallback>,
        aliased_by: Vec<String>,
        encodings: Vec<Encoding>,
    },
    Pattern {
        pattern: String,
        content_type: Option<String>,
        headers: Vec<(String, String)>,
        encodings: Vec<Encoding>,
    },
}

pub enum RuleView {
    File {
        path: Seq<char>,
        content_type: Option<Seq<char>>,
        headers: Seq<(Seq<char>, Seq<char>)>,
        fallback_for: Seq<FallbackView>,
        aliased_by: Seq<Seq<char>>,
        encodings: Seq<Encoding>,
    },
    Pattern {
        pattern: Seq<char>,
        content_type: Option<Seq<char>>,
        headers: Seq<(Seq<char>, Seq<char>)>,
        encodings: Seq<Encoding>,
    },
}

impl View for Rule {
    type V = RuleView;

    open spec fn view(&self) -> RuleView {
        match self {
            Rule::File { path, content_type, headers, fallback_for, aliased_by, encodings } => {
                RuleView::File {
                    path: path@,
                    content_type: content_type.deep_view(),
                    headers: headers.deep_view(),
                    fallback_for: fallback_for.deep_view(),
                    aliased_by: aliased_by.deep_view(),
                    encodings: encodings@,
                }
            },
            Rule::Pattern { pattern, content_type, headers, encodings } => RuleView::Pattern {
                pattern: pattern@,
                content_type: content_type.deep_view(),
                headers: headers.deep_view(),
                encodings: encodings@,
            },
        }
    }
}

impl DeepView for Rule {
    type V = RuleView;

    open spec fn deep_view(&self) -> RuleView {
        self@
    }
}

impl RuleView {
    pub open spec fn content_type(self) -> Option<Seq<char>> {
        match self {
            RuleView::File { content_type, .. } => content_type,
            RuleView::Pattern { content_type, .. } => content_type,
        }
    }

    pub open spec fn headers(self) -> Seq<(Seq<char>, Seq<char>)> {
        match self {
            RuleView::File { headers, .. } => headers,
            RuleView::Pattern { headers, .. } => headers,
        }
    }

    pub open spec fn encodings(self) -> Seq<Encoding> {
        match self {
            RuleView::File { encodings, .. } => encodings,
            RuleView::Pattern { encodings, .. } => encodings,
        }
    }

    pub open spec fn fallback_for(self) -> Seq<FallbackView> {
        match self {
            RuleView::File { fallback_for, .. } => fallback_for,
            RuleView::Pattern { .. } => Seq::empty(),
        }
    }

    pub open spec fn aliased_by(self) -> Seq<Seq<char>> {
        match self {
            RuleView::File { aliased_by, .. } => aliased_by,
            RuleView::Pattern { .. } => Seq::empty(),
        }
    }
}

/// What is certified for one governed asset: the asset's path and, taken
/// from the rule that governs it, the headers, encodings, fallback scopes
/// and aliases of its responses.
#[derive(Clone, Debug, PartialEq, Eq)]
pub struct Entry {
    pub path: String,
    pub content_type: Option<String>,
    pub headers: Vec<(String, String)>,
    pub fallback_for: Vec<Fallback>,
    pub aliased_by: Vec<String>,
    pub encodings: Vec<Encoding>,
}

pub struct EntryView {
    pub path: Seq<char>,
    pub content_type: Option<Seq<char>>,
    pub headers: Seq<(Seq<char>, Seq<char>)>,
    pub fallback_for: Seq<FallbackView>,
    pub aliased_by: Seq<Seq<char>>,
    pub encodings: Seq<Encoding>,
}

impl View for Entry {
    type V = EntryView;

    open spec fn view(&self) -> EntryView {
        EntryView {
            path: self.path@,
            content_type: self.content_type.deep_view(),
            headers: self.headers.deep_view(),
            fallback_for: self.fallback_for.deep_view(),
            aliased_by: self.aliased_by.deep_view(),
            encodings: self.encodings@,
        }
    }
}

impl DeepView for Entry {
    type V = EntryView;

    open spec fn deep_view(&self) -> EntryView {
        self@
    }
}

/// Why a rule table cannot be built into a tree.
#[derive(Clone, Copy, Debug, PartialEq, Eq, Structural)]
pub enum ConfigurationError {
    /// The file rule at this index names a path that no asset has.
    MissingAsset { rule: usize },
    /// The pattern rule at this index holds a glob that does not parse.
    InvalidPattern { rule: usize },
    /// The file rule at this index asks for a fallback status outside 100..=999.
    InvalidStatus { rule: usize },
    /// Two registrations claim one URL or one fallback scope.
    Conflict,
    /// The tree refused a response that the rules ask for, or holds one
    /// that no rule asks for.
    Rejected,
}

/// Why a build failed. Nothing is published after a failed build.
#[derive(Clone, Debug, PartialEq, Eq)]
pub enum BuildError {
    Configuration(ConfigurationError),
    /// The asset at `path` is governed by a rule that asks for `encoding`,
    /// and the response in that encoding cannot be had.
    EncodingUnavailable { path: String, encoding: Encoding },
}

pub enum BuildErrorView {
    Configuration(ConfigurationError),
    EncodingUnavailable { path: Seq<char>, encoding: Encoding },
}

impl View for BuildError {
    type V = BuildErrorView;

    open spec fn view(&self) -> BuildErrorView {
        match self {
            BuildError::Configuration(e) => BuildErrorView::Configuration(*e),
            BuildError::EncodingUnavailable { path, encoding } => BuildErrorView::EncodingUnavailable {
                path: path@,
                encoding: *encoding,
            },
        }
    }
}

/// Why a request got no certified response.
#[derive(Clone, Copy, Debug, PartialEq, Eq, Structural)]
pub enum ServeError {
    /// No tree has been built, or no certificate for its digest can be had.
    ProofUnavailable,
    /// Nothing is registered for the requested path.
    NotFound,
}

/// An incoming read request.
#[derive(Clone, Debug, PartialEq, Eq)]
pub struct Request {
    pub method: String,
    pub url: String,
    pub headers: Vec<(String, String)>,
}

pub struct RequestView {
    pub method: Seq<char>,
    pub url: Seq<char>,
    pub headers: Seq<(Seq<char>, Seq<char>)>,
}

impl View for Request {
    type V = RequestView;

    open spec fn view(&self) -> RequestView {
        RequestView { method: self.method@, url: self.url@, headers: self.headers.deep_view() }
    }
}

/// An outgoing response: status, headers in order, body.
#[derive(Clone, Debug, PartialEq, Eq)]
pub struct Response {
    pub status_code: u16,
    pub headers: Vec<(String, String)>,
    pub body: Vec<u8>,
}

pub struct ResponseView {
    pub status_code: u16,
    pub headers: Seq<(Seq<char>, Seq<char>)>,
    pub body: Seq<u8>,
}

impl View for Response {
    type V = ResponseView;

    open spec fn view(&self) -> ResponseView {
        ResponseView {
            status_code: self.status_code,
            headers: self.headers.deep_view(),
            body: self.body@,
        }
    }
}

impl DeepView for Response {
    type V = ResponseView;

    open spec fn deep_view(&self) -> ResponseView {
        self@
    }
}

} // verus!
