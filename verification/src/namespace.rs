//! Note namespaces and the Git refs that hold them.

use vstd::prelude::*;
use crate::text::{chars_of, chars_equal, starts_with, slice_chars, string_of, has_prefix};

verus! {

/// The three built-in note namespaces, extensible through `Custom`.
#[derive(Debug)]
pub enum Namespace {
    Comments,
    Review,
    Todos,
    Custom(String),
}

/// A namespace as a mathematical value.
pub enum NamespaceView {
    Comments,
    Review,
    Todos,
    Custom(Seq<char>),
}

impl View for Namespace {
    type V = NamespaceView;

    open spec fn view(&self) -> NamespaceView {
        match self {
            Namespace::Comments => NamespaceView::Comments,
            Namespace::Review => NamespaceView::Review,
            Namespace::Todos => NamespaceView::Todos,
            Namespace::Custom(name) => NamespaceView::Custom(name@),
        }
    }
}

impl Clone for Namespace {
    fn clone(&self) -> (r: Self)
        ensures
            r@ == self@,
    {
        match self {
            Namespace::Comments => Namespace::Comments,
            Namespace::Review => Namespace::Review,
            Namespace::Todos => Namespace::Todos,
            Namespace::Custom(name) => Namespace::Custom(name.clone()),
        }
    }
}

impl PartialEq for Namespace {
    fn eq(&self, other: &Self) -> (r: bool) {
        match (self, other) {
            (Namespace::Comments, Namespace::Comments) => true,
            (Namespace::Review, Namespace::Review) => true,
            (Namespace::Todos, Namespace::Todos) => true,
            (Namespace::Custom(a), Namespace::Custom(b)) => String::eq(a, b),
            _ => false,
        }
    }
}

impl Eq for Namespace {}

impl vstd::std_specs::cmp::PartialEqSpecImpl for Namespace {
    open spec fn obeys_eq_spec() -> bool {
        true
    }

    open spec fn eq_spec(&self, other: &Self) -> bool {
        self@ == other@
    }
}

/// The name under which a namespace is shown and stored.
pub open spec fn namespace_name(ns: NamespaceView) -> Seq<char> {
    match ns {
        NamespaceView::Comments => "comments"@,
        NamespaceView::Review => "review"@,
        NamespaceView::Todos => "todos"@,
        NamespaceView::Custom(name) => name,
    }
}

/// The prefix shared by all note refs.
pub open spec fn notes_ref_prefix() -> Seq<char> {
    "refs/notes/"@
}

/// The Git ref that holds a namespace.
pub open spec fn namespace_ref(ns: NamespaceView) -> Seq<char> {
    notes_ref_prefix() + namespace_name(ns)
}

/// A text without a leading `refs/notes/`, if it has one.
pub open spec fn strip_notes_prefix(s: Seq<char>) -> Seq<char> {
    if has_prefix(s, notes_ref_prefix()) {
        s.subrange(notes_ref_prefix().len() as int, s.len() as int)
    } else {
        s
    }
}

/// The namespace a bare name denotes: a built-in one where the name is
/// one of theirs, a custom one otherwise.
pub open spec fn namespace_named(name: Seq<char>) -> NamespaceView {
    if name == "comments"@ {
        NamespaceView::Comments
    } else if name == "review"@ {
        NamespaceView::Review
    } else if name == "todos"@ {
        NamespaceView::Todos
    } else {
        NamespaceView::Custom(name)
    }
}

/// The namespace that a name or a full ref path denotes.
pub open spec fn parse_namespace(s: Seq<char>) -> NamespaceView {
    namespace_named(strip_notes_prefix(s))
}

/// The name of a custom namespace collides with a built-in one.
pub open spec fn is_builtin_name(name: Seq<char>) -> bool {
    name == "comments"@ || name == "review"@ || name == "todos"@
}

impl Namespace {
    /// Returns the full ref path for this namespace.
    pub fn ref_path(&self) -> (r: String)
        ensures
            r@ == namespace_ref(self@),
    {
        let mut out = chars_of("refs/notes/");
        let name = self.to_string();
        let name_chars = chars_of(name.as_str());
        crate::text::append_chars(&mut out, &name_chars);
        string_of(&out)
    }

    /// The name of the namespace, as it is displayed.
    pub fn to_string(&self) -> (r: String)
        ensures
            r@ == namespace_name(self@),
    {
        match self {
            Namespace::Comments => "comments".to_owned(),
            Namespace::Review => "review".to_owned(),
            Namespace::Todos => "todos".to_owned(),
            Namespace::Custom(name) => name.clone(),
        }
    }

    /// Parses a string into a namespace, matching built-in names where
    /// possible. A leading `refs/notes/` is stripped first.
    pub fn from_str(s: &str) -> (r: Self)
        ensures
            r@ == parse_namespace(s@),
    {
        let chars = chars_of(s);
        let prefix = chars_of("refs/notes/");
        let stripped = if starts_with(&chars, &prefix) {
            slice_chars(&chars, prefix.len(), chars.len())
        } else {
            chars
        };
        proof {
            reveal_strlit("refs/notes/");
        }
        let comments = chars_of("comments");
        let review = chars_of("review");
        let todos = chars_of("todos");
        if chars_equal(&stripped, &comments) {
            Namespace::Comments
        } else if chars_equal(&stripped, &review) {
            Namespace::Review
        } else if chars_equal(&stripped, &todos) {
            Namespace::Todos
        } else {
            Namespace::Custom(string_of(&stripped))
        }
    }
}

/// Parsing a namespace's ref path gives the namespace back, unless it is a
/// custom namespace named like a built-in one.
pub proof fn law_ref_path_round_trip(ns: NamespaceView)
    requires
        !(ns matches NamespaceView::Custom(name) && is_builtin_name(name)),
    ensures
        parse_namespace(namespace_ref(ns)) == ns,
{
    reveal_strlit("comments");
    reveal_strlit("review");
    reveal_strlit("todos");
    let r = namespace_ref(ns);
    assert(r.subrange(0, notes_ref_prefix().len() as int) =~= notes_ref_prefix());
    assert(r.subrange(notes_ref_prefix().len() as int, r.len() as int) =~= namespace_name(ns));
}

/// Parsing a namespace's displayed name gives the namespace back, unless it
/// is a custom namespace named like a built-in one or whose name itself
/// starts with `refs/notes/`.
pub proof fn law_name_round_trip(ns: NamespaceView)
    requires
        !(ns matches NamespaceView::Custom(name) && (is_builtin_name(name) || has_prefix(
            name,
            notes_ref_prefix(),
        ))),
    ensures
        parse_namespace(namespace_name(ns)) == ns,
{
    reveal_strlit("refs/notes/");
    reveal_strlit("comments");
    reveal_strlit("review");
    reveal_strlit("todos");
    match ns {
        NamespaceView::Comments => {
            assert(!has_prefix("comments"@, notes_ref_prefix()));
        },
        NamespaceView::Review => {
            assert(!has_prefix("review"@, notes_ref_prefix()));
        },
        NamespaceView::Todos => {
            assert(!has_prefix("todos"@, notes_ref_prefix()));
        },
        NamespaceView::Custom(_) => {},
    }
}

} // verus!
