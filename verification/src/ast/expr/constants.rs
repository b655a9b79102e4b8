//! Literal constant values.

use crate::num::Dec;
use crate::text::{push_dec, push_i64, spec_dec_string, spec_int_string};
use vstd::prelude::*;
use vstd::string::StringExecFns;

verus! {

/// A literal value: integer, decimal, string, boolean or `undefined`.
/// The two string flags record how the literal was written; after parse
/// time they do not change its meaning.
#[derive(Clone, Debug, PartialEq)]
pub enum Const {
    Integer(i64),
    Float(Dec),
    Str { v: String, is_raw: bool, is_fmt: bool },
    Undef,
    Bool(bool),
}

/// The mathematical shape of a constant.
pub enum ConstView {
    Integer(i64),
    Float(Dec),
    Str { v: Seq<char>, is_raw: bool, is_fmt: bool },
    Undef,
    Bool(bool),
}

impl View for Const {
    type V = ConstView;

    open spec fn view(&self) -> ConstView {
        match self {
            Const::Integer(v) => ConstView::Integer(*v),
            Const::Float(d) => ConstView::Float(*d),
            Const::Str { v, is_raw, is_fmt } => ConstView::Str {
                v: v@,
                is_raw: *is_raw,
                is_fmt: *is_fmt,
            },
            Const::Undef => ConstView::Undef,
            Const::Bool(b) => ConstView::Bool(*b),
        }
    }
}

impl DeepView for Const {
    type V = ConstView;

    open spec fn deep_view(&self) -> ConstView {
        self.view()
    }
}

/// The display form of a constant: the string unwrapped, numbers in
/// their decimal form, booleans as words, `undefined` as itself.
pub open spec fn spec_const_display(c: ConstView) -> Seq<char> {
    match c {
        ConstView::Integer(v) => spec_int_string(v as int),
        ConstView::Float(d) => spec_dec_string(d),
        ConstView::Str { v, .. } => v,
        ConstView::Undef => "undefined"@,
        ConstView::Bool(b) => if b {
            "true"@
        } else {
            "false"@
        },
    }
}

impl Const {
    /// The display form of this constant.
    pub fn display_text(&self) -> (r: String)
        ensures
            r@ == spec_const_display(self@),
    {
        match self {
            Const::Integer(v) => {
                let mut s = String::new();
                push_i64(&mut s, *v);
                proof {
                    assert(s@ =~= spec_const_display(self@));
                }
                s
            },
            Const::Float(d) => {
                let mut s = String::new();
                push_dec(&mut s, *d);
                proof {
                    assert(s@ =~= spec_const_display(self@));
                }
                s
            },
            Const::Str { v, .. } => v.clone(),
            Const::Undef => String::from_str("undefined"),
            Const::Bool(b) => {
                if *b {
                    String::from_str("true")
                } else {
                    String::from_str("false")
                }
            },
        }
    }

    /// A structural copy of this constant.
    pub fn duplicate(&self) -> (r: Const)
        ensures
            r@ == self@,
    {
        match self {
            Const::Integer(v) => Const::Integer(*v),
            Const::Float(d) => Const::Float(*d),
            Const::Str { v, is_raw, is_fmt } => Const::Str {
                v: v.clone(),
                is_raw: *is_raw,
                is_fmt: *is_fmt,
            },
            Const::Undef => Const::Undef,
            Const::Bool(b) => Const::Bool(*b),
        }
    }
}

} // verus!
