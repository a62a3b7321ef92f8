//! Accessor declarations of registered fields.
//!
//! A field registered with the host engine's class system can declare how its
//! getter and setter come to be: omitted, generated, or supplied by hand
//! under a custom name. This module holds the query interface over such
//! declarations and the two rules every declaration obeys: a field that
//! names neither accessor gets both generated, and a change-notification
//! callback demands a generated setter, since only generated code can invoke
//! it after a write.

use vstd::prelude::*;

verus! {

/// How one accessor of a field is declared.
#[derive(Clone, PartialEq, Eq, Debug)]
pub enum GetterSetter {
    /// The accessor is omitted: the field is write-only or read-only.
    Omitted,
    /// A trivial accessor is generated.
    Generated,
    /// The accessor is handwritten, under this name.
    Custom(String),
}

impl GetterSetter {
    /// Whether the declaration omits this accessor.
    pub fn is_omitted(&self) -> (r: bool)
        ensures
            r <==> self is Omitted,
    {
        match self {
            GetterSetter::Omitted => true,
            _ => false,
        }
    }

    /// Whether this accessor is to be generated.
    pub fn is_generated(&self) -> (r: bool)
        ensures
            r <==> self is Generated,
    {
        match self {
            GetterSetter::Generated => true,
            _ => false,
        }
    }
}

/// Which accessor of a field is meant.
#[derive(Clone, Copy, PartialEq, Eq, Debug)]
pub enum GetSet {
    Getter,
    Setter,
}

impl GetSet {
    /// The name prefix a generated accessor of this kind carries.
    pub fn prefix(&self) -> (r: &'static str)
        ensures
            self is Getter ==> r@ == "get_"@,
            self is Setter ==> r@ == "set_"@,
    {
        match self {
            GetSet::Getter => "get_",
            GetSet::Setter => "set_",
        }
    }
}

/// How a field's property-usage flags are determined.
#[derive(Clone, PartialEq, Eq, Debug)]
pub enum UsageFlags {
    /// The flags are inferred from context.
    Inferred,
    /// The flags are inferred from context, and include export.
    InferredExport,
    /// The caller supplies the flags by name.
    Custom(Vec<String>),
}

impl UsageFlags {
    /// Whether the flags are left entirely to inference.
    pub fn is_inferred(&self) -> (r: bool)
        ensures
            r <==> self is Inferred,
    {
        match self {
            UsageFlags::Inferred => true,
            _ => false,
        }
    }
}

/// The defaulting rule of a field declaration: a field that names neither
/// accessor gets both generated; naming either one leaves both exactly as
/// declared.
pub fn resolve_accessors(getter: GetterSetter, setter: GetterSetter) -> (r: (
    GetterSetter,
    GetterSetter,
))
    ensures
        (getter is Omitted && setter is Omitted) ==> r == (
            GetterSetter::Generated,
            GetterSetter::Generated,
        ),
        !(getter is Omitted && setter is Omitted) ==> r == (getter, setter),
{
    if getter.is_omitted() && setter.is_omitted() {
        (GetterSetter::Generated, GetterSetter::Generated)
    } else {
        (getter, setter)
    }
}

/// The notification rule of a field declaration: a change-notification
/// callback is only valid together with a generated setter, which is the
/// only code that can invoke it after a write.
pub fn notify_is_valid(has_notify: bool, setter: &GetterSetter) -> (r: bool)
    ensures
        r <==> (!has_notify || setter is Generated),
{
    !has_notify || setter.is_generated()
}

} // verus!
