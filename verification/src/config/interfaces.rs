//! The declared interface of a module.

use crate::text::texts;
use vstd::prelude::*;

verus! {

/// The kinds of data that may cross an interface.
#[derive(Debug, Clone, Copy, PartialEq, Eq, Structural)]
pub enum InterfaceDataTypes {
    All,
    Primitive,
}

impl Default for InterfaceDataTypes {
    fn default() -> (r: InterfaceDataTypes)
        ensures
            r == InterfaceDataTypes::All,
    {
        InterfaceDataTypes::All
    }
}

impl InterfaceDataTypes {
    /// The name of the kind, as a configuration writes it.
    pub open spec fn name(self) -> Seq<char> {
        match self {
            InterfaceDataTypes::All => "all"@,
            InterfaceDataTypes::Primitive => "primitive"@,
        }
    }

    /// The name of the kind, as a configuration writes it.
    pub fn to_string(&self) -> (r: String)
        ensures
            r@ == self.name(),
    {
        match self {
            InterfaceDataTypes::All => String::from_str("all"),
            InterfaceDataTypes::Primitive => String::from_str("primitive"),
        }
    }

    /// Whether this is the kind that a configuration need not write.
    pub fn is_default(&self) -> (r: bool)
        ensures
            r == (*self == InterfaceDataTypes::All),
    {
        *self == InterfaceDataTypes::default()
    }
}

/// One interface of a project: the names it exposes, the modules it
/// exposes them from, and the kinds of data that may cross it.
#[derive(Debug, Clone, PartialEq)]
pub struct InterfaceConfig {
    pub expose: Vec<String>,
    pub from_modules: Vec<String>,
    pub data_types: InterfaceDataTypes,
}

impl Default for InterfaceConfig {
    fn default() -> (r: InterfaceConfig)
        ensures
            r.expose@.len() == 0,
            r.from_modules@.len() == 0,
            r.data_types == InterfaceDataTypes::All,
    {
        InterfaceConfig {
            expose: Vec::new(),
            from_modules: Vec::new(),
            data_types: InterfaceDataTypes::All,
        }
    }
}

/// The modules of an interface that names none: the one pattern that
/// matches every module.
pub open spec fn default_from_modules_spec() -> Seq<Seq<char>> {
    seq![".*"@]
}

/// The modules of an interface that names none.
pub fn default_from_modules() -> (r: Vec<String>)
    ensures
        texts(r@) == default_from_modules_spec(),
{
    let mut r: Vec<String> = Vec::new();
    r.push(String::from_str(".*"));
    assert(texts(r@) =~= default_from_modules_spec());
    r
}

/// Whether `value` is what an interface has that names no module.
pub fn is_default_from_modules(value: &Vec<String>) -> (r: bool)
    ensures
        r == (texts(value@) == default_from_modules_spec()),
{
    if value.len() != 1 {
        assert(texts(value@).len() != default_from_modules_spec().len());
        return false;
    }
    let pattern = String::from_str(".*");
    let r = value[0] == pattern;
    if r {
        assert(texts(value@) =~= default_from_modules_spec());
    } else {
        assert(texts(value@)[0] != default_from_modules_spec()[0]);
    }
    r
}

} // verus!
