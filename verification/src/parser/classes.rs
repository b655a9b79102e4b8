//! Class descriptors and class instances.

use crate::parser::obj::{table_view, Object, ObjectView};
use vstd::prelude::*;

verus! {

/// A class descriptor: native (name only) or user-defined, carrying the
/// evaluated members — field values and methods, with a `constructor`
/// entry where one was declared.
#[derive(Debug, PartialEq)]
pub enum ClassD {
    Native { name: String },
    Coded { name: String, vars: Vec<(String, Object)> },
}

/// The mathematical shape of a class descriptor.
pub enum ClassDView {
    Native { name: Seq<char> },
    Coded { name: Seq<char>, vars: Map<Seq<char>, ObjectView> },
}

/// An instance of a class: the descriptor's name and its own field
/// table.
#[derive(Debug, PartialEq)]
pub struct ClassO {
    pub name: String,
    pub vars: Vec<(String, Object)>,
}

/// The mathematical shape of an instance.
pub struct ClassOView {
    pub name: Seq<char>,
    pub vars: Map<Seq<char>, ObjectView>,
}

/// The view of a class descriptor.
pub open spec fn classd_view(c: ClassD) -> ClassDView
    decreases c,
{
    match c {
        ClassD::Native { name } => ClassDView::Native { name: name@ },
        ClassD::Coded { name, vars } => ClassDView::Coded {
            name: name@,
            vars: table_view(vars@),
        },
    }
}

/// The view of an instance.
pub open spec fn classo_view(c: ClassO) -> ClassOView
    decreases c,
{
    ClassOView { name: c.name@, vars: table_view(c.vars@) }
}

impl View for ClassD {
    type V = ClassDView;

    open spec fn view(&self) -> ClassDView {
        classd_view(*self)
    }
}

impl View for ClassO {
    type V = ClassOView;

    open spec fn view(&self) -> ClassOView {
        classo_view(*self)
    }
}

impl ClassD {
    /// A structural copy of this descriptor.
    pub fn duplicate(&self) -> (r: ClassD)
        ensures
            r@ == self@,
        decreases self,
    {
        match self {
            ClassD::Native { name } => ClassD::Native { name: name.clone() },
            ClassD::Coded { name, vars } => {
                proof {
                    assert(decreases_to!(*self => self->Coded_vars));
                }
                ClassD::Coded {
                    name: name.clone(),
                    vars: crate::parser::obj::table_duplicate(vars),
                }
            },
        }
    }
}

impl ClassO {
    /// A structural copy of this instance.
    pub fn duplicate(&self) -> (r: ClassO)
        ensures
            r@ == self@,
        decreases self,
    {
        proof {
            assert(decreases_to!(*self => self.vars));
        }
        ClassO { name: self.name.clone(), vars: crate::parser::obj::table_duplicate(&self.vars) }
    }
}

} // verus!
