//! Scope frames.

use crate::ast::expr::constants::Const;
use crate::ast::stmt::{stmts_view, Stmt, StmtView};
use crate::parser::obj::{
    lemma_table_view_push, object_view, table_view, Object, ObjectView,
};
use vstd::prelude::*;

verus! {

/// A lexical scope frame: its variable table, the statement list it
/// executes, an optional enclosing frame used for read lookups only, a
/// return-value slot, and the flag that a `return` has run.
#[derive(Debug, PartialEq)]
pub struct Module {
    pub vtable: Vec<(String, Object)>,
    pub stmts: Vec<Stmt>,
    pub parent: Option<Box<Module>>,
    pub rt: Object,
    pub got_rt: bool,
}

/// The mathematical shape of a scope frame.
pub struct ModuleView {
    pub vtable: Map<Seq<char>, ObjectView>,
    pub stmts: Seq<StmtView>,
    pub parent: Option<Box<ModuleView>>,
    pub rt: ObjectView,
    pub got_rt: bool,
}

/// The view of a scope frame.
pub open spec fn module_view(m: Module) -> ModuleView
    decreases m,
{
    ModuleView {
        vtable: table_view(m.vtable@),
        stmts: stmts_view(m.stmts@),
        parent: match m.parent {
            Some(p) => Some(Box::new(module_view(*p))),
            None => None,
        },
        rt: object_view(m.rt),
        got_rt: m.got_rt,
    }
}

impl View for Module {
    type V = ModuleView;

    open spec fn view(&self) -> ModuleView {
        module_view(*self)
    }
}

/// Walk the frame and then its ancestors for the first binding of a
/// name, or nothing when no frame holds one.
pub open spec fn spec_lookup(m: ModuleView, n: Seq<char>) -> Option<ObjectView>
    decreases m,
{
    if m.vtable.dom().contains(n) {
        Some(m.vtable[n])
    } else {
        match m.parent {
            Some(p) => spec_lookup(*p, n),
            None => None,
        }
    }
}

impl Module {
    /// A fresh frame: no bindings, no statements, no parent, and an
    /// `undefined` return slot.
    pub fn new() -> (r: Module)
        ensures
            r@.vtable == Map::<Seq<char>, ObjectView>::empty(),
            r@.stmts == Seq::<StmtView>::empty(),
            r@.parent is None,
            r@.rt == ObjectView::Const(crate::ast::expr::constants::ConstView::Undef),
            r@.got_rt == false,
    {
        Module {
            vtable: Vec::new(),
            stmts: Vec::new(),
            parent: None,
            rt: Object::Const(Const::Undef),
            got_rt: false,
        }
    }

    /// Look a name up in this frame, then its ancestors.
    pub fn get_var(&self, n: &String) -> (r: Option<&Object>)
        ensures
            match r {
                Some(o) => spec_lookup(self@, n@) == Some(o@),
                None => spec_lookup(self@, n@) is None,
            },
        decreases self,
    {
        let ghost tv = self.vtable@;
        proof {
            assert(tv.subrange(0, tv.len() as int) =~= tv);
        }
        let mut j = self.vtable.len();
        while j > 0
            invariant
                j <= self.vtable@.len(),
                tv == self.vtable@,
                table_view(tv).dom().contains(n@) == table_view(tv.subrange(0, j as int)).dom()
                    .contains(n@),
                table_view(tv).dom().contains(n@) ==> table_view(tv)[n@] == table_view(
                    tv.subrange(0, j as int),
                )[n@],
            decreases j,
        {
            j = j - 1;
            proof {
                assert(tv.subrange(0, (j + 1) as int).subrange(0, j as int) =~= tv.subrange(
                    0,
                    j as int,
                ));
                assert(tv.subrange(0, (j + 1) as int).last() == tv[j as int]);
            }
            if self.vtable[j].0.eq(n) {
                return Some(&self.vtable[j].1);
            }
        }
        proof {
            assert(tv.subrange(0, 0) =~= Seq::<(String, Object)>::empty());
        }
        match &self.parent {
            Some(p) => {
                proof {
                    assert(decreases_to!(*self => self.parent));
                }
                p.get_var(n)
            },
            None => None,
        }
    }

    /// Bind a name in this frame, overwriting any earlier binding.
    pub fn add_var(&mut self, n: &String, v: Object)
        ensures
            final(self)@ == (ModuleView { vtable: old(self)@.vtable.insert(n@, v@), ..old(self)@ }),
    {
        let ghost pre = self.vtable@;
        let ghost gv = v;
        self.vtable.push((n.clone(), v));
        proof {
            lemma_table_view_push(pre, self.vtable@, self.vtable@.last().0, self.vtable@.last().1);
        }
    }

    /// A structural copy of this frame and its ancestors.
    pub fn duplicate(&self) -> (r: Module)
        ensures
            r@ == self@,
        decreases self,
    {
        let par: Option<Box<Module>> = match &self.parent {
            Some(p) => {
                proof {
                    assert(decreases_to!(*self => self.parent));
                }
                Some(Box::new(p.duplicate()))
            },
            None => None,
        };
        Module {
            vtable: crate::parser::obj::table_duplicate(&self.vtable),
            stmts: crate::ast::stmt::stmts_duplicate(&self.stmts),
            parent: par,
            rt: self.rt.duplicate(),
            got_rt: self.got_rt,
        }
    }
}

} // verus!
