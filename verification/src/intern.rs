//! Interned symbols and strings.
//!
//! Handles come from the `internment` crate, which keeps one process-wide
//! registry per type and never frees an entry. Verus does not look inside a
//! handle: what a handle stands for is named by the spec functions below, and
//! the few calls into `internment` sit in wrappers whose contracts are
//! assumed, not proved.

use internment::Intern;
use vstd::prelude::*;
use crate::text::chars_of;

verus! {

/// `internment::Intern`, a pointer to an interned value. Nothing is known
/// of a handle but what the functions of this module say.
#[verifier::external_type_specification]
#[verifier::external_body]
#[verifier::reject_recursive_types(T)]
pub struct ExIntern<T: 'static + ?Sized>(Intern<T>);

/// A word's name together with the namespace it lives in.
#[derive(Debug, Clone, PartialEq, Eq, Hash)]
pub struct Symbol {
    pub namespace: String,
    pub name: String,
}

/// What a symbol handle stands for: a namespace and a name.
pub struct Name {
    pub namespace: Seq<char>,
    pub name: Seq<char>,
}

impl View for Symbol {
    type V = Name;

    open spec fn view(&self) -> Name {
        Name { namespace: self.namespace@, name: self.name@ }
    }
}

/// The text that an interned string holds.
pub uninterp spec fn interned_text(handle: Intern<String>) -> Seq<char>;

/// The namespace of the symbol that a handle points to.
pub uninterp spec fn interned_namespace(handle: Intern<Symbol>) -> Seq<char>;

/// The name of the symbol that a handle points to.
pub uninterp spec fn interned_name(handle: Intern<Symbol>) -> Seq<char>;

/// The symbol behind a handle.
pub open spec fn name_of(handle: Intern<Symbol>) -> Name {
    Name { namespace: interned_namespace(handle), name: interned_name(handle) }
}

/// The name `name` in the global namespace, which is the empty one.
pub open spec fn global(name: Seq<char>) -> Name {
    Name { namespace: Seq::empty(), name }
}

/// Calls `internment::Intern::new` on a `String` built from `text`.
/// Assumed: the handle it returns dereferences to that text.
#[verifier::external_body]
pub(crate) fn intern_text(text: &Vec<char>) -> (handle: Intern<String>)
    ensures
        interned_text(handle) == text@,
{
    Intern::new(text.iter().collect::<String>())
}

/// Calls `internment::Intern::new` on a `Symbol` built from the two texts.
/// Assumed: the handle it returns dereferences to a symbol with that
/// namespace and name.
#[verifier::external_body]
pub(crate) fn intern_symbol(namespace: &Vec<char>, name: &Vec<char>) -> (handle: Intern<Symbol>)
    ensures
        interned_namespace(handle) == namespace@,
        interned_name(handle) == name@,
{
    Intern::new(Symbol { namespace: namespace.iter().collect(), name: name.iter().collect() })
}

/// Dereferences an interned string with `internment::Intern::as_ref` and
/// copies out its characters. Assumed: they are the text that the handle
/// stands for, the same at every call.
#[verifier::external_body]
pub(crate) fn text_of(handle: Intern<String>) -> (text: Vec<char>)
    ensures
        text@ == interned_text(handle),
{
    handle.as_ref().chars().collect()
}

/// Dereferences a symbol handle with `internment::Intern::as_ref` and
/// copies out its name. Assumed: it is the name that the handle stands for,
/// the same at every call.
#[verifier::external_body]
pub(crate) fn symbol_name(handle: Intern<Symbol>) -> (name: String)
    ensures
        name@ == interned_name(handle),
{
    handle.as_ref().name.clone()
}

/// Compares two symbol handles with `internment::Intern`'s `==`, which
/// compares the pointers. Assumed: equal symbols are interned to one pointer
/// and different symbols to different ones, so that the pointers agree
/// exactly when the symbols do.
#[verifier::external_body]
pub(crate) fn same_symbol(a: Intern<Symbol>, b: Intern<Symbol>) -> (same: bool)
    ensures
        same == (name_of(a) == name_of(b)),
{
    a == b
}

/// Compares two interned strings with `internment::Intern`'s `==`, which
/// compares the pointers. Assumed: equal texts are interned to one pointer
/// and different texts to different ones, so that the pointers agree exactly
/// when the texts do.
#[verifier::external_body]
pub(crate) fn same_text(a: Intern<String>, b: Intern<String>) -> (same: bool)
    ensures
        same == (interned_text(a) == interned_text(b)),
{
    a == b
}

/// The handle of `name` in the global namespace.
pub fn global_symbol(name: &Vec<char>) -> (handle: Intern<Symbol>)
    ensures
        name_of(handle) == global(name@),
{
    let namespace: Vec<char> = Vec::new();
    intern_symbol(&namespace, name)
}

impl Symbol {
    /// The handle of the symbol `name` in `namespace`.
    pub fn intern(namespace: &str, name: &str) -> (handle: Intern<Symbol>)
        ensures
            name_of(handle) == (Name { namespace: namespace@, name: name@ }),
    {
        intern_symbol(&chars_of(namespace), &chars_of(name))
    }

    /// The handle of `name` in the global namespace.
    pub fn new_global(name: &str) -> (handle: Intern<Symbol>)
        ensures
            name_of(handle) == global(name@),
    {
        global_symbol(&chars_of(name))
    }
}

} // verus!
