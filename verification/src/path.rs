//! The path value: a structural path, resolved into its parent directories
//! and its last segment, or an external reference that is kept as written.
use vstd::prelude::*;
use crate::resolve::{resolve, resolve_path};
use crate::segments::{SEPARATOR, join, join_segments, split};
use crate::text::has_prefix;

verus! {

/// The scheme prefix `http:`.
pub open spec fn http_scheme() -> Seq<char> {
    seq!['h', 't', 't', 'p', ':']
}

/// The scheme prefix `https:`.
pub open spec fn https_scheme() -> Seq<char> {
    seq!['h', 't', 't', 'p', 's', ':']
}

/// Whether `s` is an external reference: a text that begins with `http:` or
/// with `https:`.
pub open spec fn has_scheme(s: Seq<char>) -> bool {
    http_scheme().is_prefix_of(s) || https_scheme().is_prefix_of(s)
}

/// Whether `s` begins with a separator.
pub open spec fn starts_at_root(s: Seq<char>) -> bool {
    s.len() > 0 && s[0] == SEPARATOR
}

/// The last of the resolved segments `stack`, if there is any.
pub open spec fn last_of(stack: Seq<Seq<char>>) -> Option<Seq<char>> {
    if stack.len() == 0 {
        None
    } else {
        Some(stack.last())
    }
}

/// The resolved segments `stack` without their last, joined into one text;
/// `None` where that text would be empty.
pub open spec fn parent_of(stack: Seq<Seq<char>>) -> Option<Seq<char>> {
    let dirs = if stack.len() == 0 {
        stack
    } else {
        stack.drop_last()
    };
    if join(dirs).len() == 0 {
        None
    } else {
        Some(join(dirs))
    }
}

/// A path, parsed from the text that the caller wrote.
pub enum UrlPath {
    /// A structural path.
    Path {
        /// The resolved segments before the last, joined by separators;
        /// `None` where there are none.
        parent: Option<String>,
        /// The last resolved segment; `None` where nothing is left of the
        /// path after resolution.
        last: Option<String>,
        /// Whether the text began with a separator.
        is_absolute: bool,
    },
    /// An external reference, kept exactly as written.
    External(String),
}

/// What a [`UrlPath`] holds, with every text as a sequence of characters:
/// the value that contracts speak of.
pub enum PathView {
    /// A structural path.
    Path { parent: Option<Seq<char>>, last: Option<Seq<char>>, is_absolute: bool },
    /// An external reference.
    External(Seq<char>),
}

impl PathView {
    /// The path that the text `s` denotes: an external reference if `s`
    /// begins with a scheme, and otherwise the structural path that the
    /// segments of `s` resolve to.
    pub open spec fn parse(s: Seq<char>) -> PathView {
        if has_scheme(s) {
            PathView::External(s)
        } else {
            let stack = resolve(split(s));
            PathView::Path {
                parent: parent_of(stack),
                last: last_of(stack),
                is_absolute: starts_at_root(s),
            }
        }
    }

    /// The invariant of a parsed path: its parent, where it has one, is not
    /// the empty text and is followed by a last segment.
    pub open spec fn well_formed(self) -> bool {
        match self.parent() {
            Some(parent) => parent.len() > 0 && self.last() is Some,
            None => true,
        }
    }

    /// Whether this is an external reference.
    pub open spec fn is_external(self) -> bool {
        self is External
    }

    /// Whether this is a structural path that began with a separator.
    pub open spec fn is_absolute(self) -> bool {
        match self {
            PathView::Path { is_absolute, .. } => is_absolute,
            PathView::External(_) => false,
        }
    }

    /// The parent directories of a structural path.
    pub open spec fn parent(self) -> Option<Seq<char>> {
        match self {
            PathView::Path { parent, .. } => parent,
            PathView::External(_) => None,
        }
    }

    /// The last segment of a structural path.
    pub open spec fn last(self) -> Option<Seq<char>> {
        match self {
            PathView::Path { last, .. } => last,
            PathView::External(_) => None,
        }
    }

    /// The parent and the last segment of a structural path put together,
    /// without regard to where the path began.
    pub open spec fn body(self) -> Seq<char> {
        match (self.parent(), self.last()) {
            (Some(parent), Some(last)) => parent + seq![SEPARATOR] + last,
            (Some(parent), None) => parent,
            (None, Some(last)) => last,
            (None, None) => Seq::empty(),
        }
    }

    /// The text of this path: an external reference as it was written, a
    /// structural path as its body, behind one separator if it is absolute.
    pub open spec fn normalize(self) -> Seq<char> {
        match self {
            PathView::External(s) => s,
            PathView::Path { is_absolute, .. } => if is_absolute {
                seq![SEPARATOR] + self.body()
            } else {
                self.body()
            },
        }
    }
}

impl View for UrlPath {
    type V = PathView;

    open spec fn view(&self) -> PathView {
        match *self {
            UrlPath::Path { parent, last, is_absolute } => PathView::Path {
                parent: parent.deep_view(),
                last: last.deep_view(),
                is_absolute,
            },
            UrlPath::External(s) => PathView::External(s@),
        }
    }
}

/// A copy of an optional text.
fn copy_of(text: &Option<String>) -> (copy: Option<String>)
    ensures
        copy.deep_view() == text.deep_view(),
{
    match text {
        Some(s) => Some(s.clone()),
        None => None,
    }
}

impl UrlPath {
    /// Parses `path`. Every text is accepted, the empty one too.
    pub fn new(path: &str) -> (url_path: Self)
        ensures
            url_path@ == PathView::parse(path@),
            url_path@.well_formed(),
    {
        proof {
            reveal_strlit("http:");
            reveal_strlit("https:");
            reveal_strlit("/");
        }
        if has_prefix(path, "http:") || has_prefix(path, "https:") {
            UrlPath::External(path.to_owned())
        } else {
            let is_absolute = has_prefix(path, "/");
            assert(is_absolute == starts_at_root(path@)) by {
                if path@.len() > 0 {
                    assert(path@.subrange(0, 1)[0] == path@[0]);
                }
            }
            let (parent, last) = Self::canonicalize(path);
            UrlPath::Path { parent, last, is_absolute }
        }
    }

    /// Whether this is a structural path that began with a separator.
    pub fn is_absolute(&self) -> (b: bool)
        ensures
            b == self@.is_absolute(),
    {
        match self {
            UrlPath::Path { is_absolute, .. } => *is_absolute,
            UrlPath::External(_) => false,
        }
    }

    /// Whether this is an external reference.
    pub fn is_external(&self) -> (b: bool)
        ensures
            b == self@.is_external(),
    {
        match self {
            UrlPath::External(_) => true,
            UrlPath::Path { .. } => false,
        }
    }

    /// Resolves `path` into its parent directories and its last segment,
    /// without looking at any file system.
    pub fn canonicalize(path: &str) -> (parts: (Option<String>, Option<String>))
        ensures
            parts.0.deep_view() == parent_of(resolve(split(path@))),
            parts.1.deep_view() == last_of(resolve(split(path@))),
    {
        let mut stack = resolve_path(path);
        let ghost resolved = stack.deep_view();
        let last = stack.pop();
        assert(stack.deep_view() =~= if resolved.len() == 0 {
            resolved
        } else {
            resolved.drop_last()
        });
        let joined = join_segments(&stack);
        let parent = if joined.as_str().is_empty() {
            None
        } else {
            Some(joined)
        };
        (parent, last)
    }

    /// A copy of the last segment; `None` for an external reference.
    pub fn last(&self) -> (last: Option<String>)
        ensures
            last.deep_view() == self@.last(),
    {
        match self {
            UrlPath::Path { last, .. } => copy_of(last),
            UrlPath::External(_) => None,
        }
    }

    /// A copy of the parent directories; `None` for an external reference.
    pub fn parent(&self) -> (parent: Option<String>)
        ensures
            parent.deep_view() == self@.parent(),
    {
        match self {
            UrlPath::Path { parent, .. } => copy_of(parent),
            UrlPath::External(_) => None,
        }
    }

    /// The text of this path in normal form.
    pub fn normalize(&self) -> (text: String)
        ensures
            text@ == self@.normalize(),
    {
        match self {
            UrlPath::Path { parent, last, is_absolute } => {
                let mut text = String::new();
                if *is_absolute {
                    text.push(SEPARATOR);
                }
                if let Some(parent) = parent {
                    text.append(parent.as_str());
                    if last.is_some() {
                        text.push(SEPARATOR);
                    }
                }
                if let Some(last) = last {
                    text.append(last.as_str());
                }
                text
            },
            UrlPath::External(s) => s.clone(),
        }
    }
}

} // verus!
