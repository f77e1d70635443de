//! The namespace of a module, made when some module imports or re-exports it
//! whole, and the export list of an entry module.

use vstd::prelude::*;
use vstd::string::*;
use crate::ast::ModuleItem;
use crate::ast_sugar::{export, is_export_list, is_namespace_stmt, namespace};
use crate::fold::{get_valid_name, stem_of, stem_of_id, valid_name};
use crate::module::{Module, ModuleView, Namespace};
use crate::names::{assoc_get, assoc_keys, assoc_put, lemma_position_none, NameMap};
use crate::scanner::rel::{ExportDesc, ExportDescView};
use crate::statement::Statement;
use crate::symbol_box::Mark;

verus! {

/// The exports among the first `n` that are members of the namespace: all but `*` itself.
pub open spec fn namespace_members(exports: Seq<(Seq<char>, Mark)>, n: int) -> Seq<
    (Seq<char>, Mark),
>
    decreases n,
{
    if 0 < n <= exports.len() {
        if exports[n - 1].0 == "*"@ {
            namespace_members(exports, n - 1)
        } else {
            namespace_members(exports, n - 1).push(exports[n - 1])
        }
    } else {
        Seq::empty()
    }
}

/// The marks of the members, in order.
pub open spec fn member_marks(members: Seq<(Seq<char>, Mark)>) -> Seq<Mark> {
    Seq::new(members.len(), |i: int| members[i].1)
}

/// The name of a module's namespace object: the one an importer suggested,
/// else one made from the module's id.
pub open spec fn namespace_name(v: ModuleView) -> Seq<char> {
    match assoc_get(v.suggested_names, "*"@) {
        Some(n) => n,
        None => valid_name(stem_of(v.id)) + "namespace"@,
    }
}

/// Whether `s` is the statement that makes the namespace of the module: it
/// is taken, declares the name, and reads every member.
pub open spec fn is_namespace_statement(s: Statement, v: ModuleView) -> bool {
    let members = namespace_members(v.exports, v.exports.len() as int);
    &&& s.included
    &&& s.declared.deep_view() == seq![(namespace_name(v), v.namespace.mark)]
    &&& s.reads@ == member_marks(members)
    &&& s.writes@.len() == 0
    &&& s.side_effect is None
    &&& s.export_mark is None
    &&& s.node matches ModuleItem::Stmt(stmt) && is_namespace_stmt(
        stmt,
        namespace_name(v),
        v.namespace.mark,
        members,
    )
}

/// The module after its namespace was made.
pub open spec fn with_namespace(v: ModuleView, s: Statement) -> ModuleView {
    ModuleView {
        local_exports: assoc_put(
            v.local_exports,
            "*"@,
            ExportDescView {
                identifier: None,
                local_name: namespace_name(v),
                mark: v.namespace.mark,
            },
        ),
        exports: assoc_put(v.exports, "*"@, v.namespace.mark),
        definitions: assoc_put(v.definitions, namespace_name(v), v.statements.len() as usize),
        declared_symbols: v.declared_symbols.push((namespace_name(v), v.namespace.mark)),
        statements: v.statements.push(s),
        namespace: Namespace { included: true, mark: v.namespace.mark },
        ..v
    }
}

/// The members of a namespace: every export but `*`, in order.
pub fn members_of(exports: &NameMap<Mark>) -> (members: Vec<(String, Mark)>)
    ensures
        members.deep_view() == namespace_members(
            exports.deep_view(),
            exports.deep_view().len() as int,
        ),
{
    let ghost all = exports.deep_view();
    let star = String::from_str("*");
    let mut members: Vec<(String, Mark)> = Vec::new();
    assert(members.deep_view() =~= namespace_members(all, 0));
    let mut i: usize = 0;
    while i < exports.entries.len()
        invariant
            i <= exports.entries@.len(),
            all == exports.deep_view(),
            star@ == "*"@,
            members.deep_view() == namespace_members(all, i as int),
        decreases exports.entries@.len() - i,
    {
        assert(all[i as int] == (exports.entries@[i as int].0@, exports.entries@[i as int].1));
        if exports.entries[i].0 != star {
            let ghost before = members.deep_view();
            members.push((exports.entries[i].0.clone(), exports.entries[i].1));
            assert(members.deep_view() =~= before.push(all[i as int]));
        }
        i += 1;
    }
    members
}

/// Whether `after` is the module `before` with its export list behind its
/// statements; a module that exports nothing but its namespace gets none.
pub open spec fn is_export_listed(before: Module, after: Module) -> bool {
    let exports = namespace_members(
        before.deep_view().exports,
        before.deep_view().exports.len() as int,
    );
    if exports.len() == 0 {
        after.deep_view() == before.deep_view()
    } else {
        let s = after.statements@[before.statements@.len() as int];
        &&& after.statements@ == before.statements@.push(s)
        &&& after.deep_view() == (ModuleView {
            statements: after.statements@,
            ..before.deep_view()
        })
        &&& s.included
        &&& s.declared.deep_view().len() == 0
        &&& s.reads@.len() == 0
        &&& s.writes@.len() == 0
        &&& s.side_effect is None
        &&& s.export_mark is None
        &&& s.node matches ModuleItem::ModuleDecl(decl) && is_export_list(decl, exports)
    }
}

impl Module {
    /// Makes the namespace of the module, once: a statement that builds the
    /// object from the module's exports, a name for it, and the export `*`.
    pub fn include_namespace(&mut self)
        ensures
            old(self).namespace.included ==> final(self).deep_view() == old(self).deep_view(),
            !old(self).namespace.included ==> {
                &&& final(self).statements@.len() == old(self).statements@.len() + 1
                &&& is_namespace_statement(
                    final(self).statements@[old(self).statements@.len() as int],
                    old(self).deep_view(),
                )
                &&& final(self).deep_view() == with_namespace(
                    old(self).deep_view(),
                    final(self).statements@[old(self).statements@.len() as int],
                )
            },
    {
        if self.namespace.included {
            return ;
        }
        let ghost v = self.deep_view();
        let star = String::from_str("*");
        let name = match self.suggested_names.get(&star) {
            Some(n) => n.clone(),
            None => {
                let stem = stem_of_id(&self.id);
                let mut made = get_valid_name(stem.as_str());
                made.append("namespace");
                made
            },
        };
        assert(name@ == namespace_name(v));
        let mark = self.namespace.mark;
        let members = members_of(&self.exports);
        let mut reads: Vec<Mark> = Vec::new();
        let mut i: usize = 0;
        while i < members.len()
            invariant
                i <= members@.len(),
                reads@.len() == i,
                forall|j: int| 0 <= j < i ==> reads@[j] == members@[j].1,
            decreases members@.len() - i,
        {
            reads.push(members[i].1);
            i += 1;
        }
        assert(reads@ =~= member_marks(members.deep_view()));
        let stmt = namespace((name.clone(), mark), &members);
        let mut s = Statement::new(ModuleItem::Stmt(stmt));
        proof {
            let none = Seq::<(Seq<char>, Mark)>::empty();
            assert(s.declared.deep_view() =~= none);
            lemma_position_none(assoc_keys(none), name@);
            assert(assoc_put(none, name@, mark) =~= seq![(name@, mark)]);
        }
        s.declared.insert(name.clone(), mark);
        s.reads = reads;
        s.included = true;
        let idx = self.statements.len();
        self.local_exports.insert(
            star.clone(),
            ExportDesc { identifier: None, local_name: name.clone(), mark },
        );
        self.exports.insert(star, mark);
        self.definitions.insert(name.clone(), idx);
        self.declared_symbols.append(name, mark);
        self.statements.push(s);
        self.namespace.included = true;
    }

    /// Appends the export list of the module, where it exports anything but its namespace.
    pub fn generate_exports(&mut self)
        ensures
            is_export_listed(*old(self), *final(self)),
    {
        let exports = members_of(&self.exports);
        if exports.len() > 0 {
            let decl = export(&exports);
            let mut s = Statement::new(ModuleItem::ModuleDecl(decl));
            s.set_included();
            self.statements.push(s);
        }
    }
}

} // verus!
