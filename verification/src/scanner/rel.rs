//! What a module's imports and exports say: one descriptor for each export,
//! and for each source the specifiers that name it, in source order.

use vstd::prelude::*;
use vstd::string::*;
use crate::ast::{
    collect_names_into, names_of_declarators, views_of, Callee, Decl, DefaultDecl, ExportSpecifier,
    Expr, ImportSpecifier, Lit, ModuleDecl, ModuleExportName,
};
use crate::names::{assoc_get, assoc_keys, assoc_put, lemma_assoc_put, lemma_position_some, NameMap};
use crate::scanner::{ModuleItemInfoView, Scanner, ScannerView};
use crate::symbol_box::{Mark, SymbolBox};

verus! {

/// A local export: `export { local_name as .. }`, or a declaration that is exported.
#[derive(Debug, PartialEq, Eq)]
pub struct ExportDesc {
    /// The name that `export default` refers to, where it refers to one.
    pub identifier: Option<String>,
    pub local_name: String,
    pub mark: Mark,
}

pub ghost struct ExportDescView {
    pub identifier: Option<Seq<char>>,
    pub local_name: Seq<char>,
    pub mark: Mark,
}

impl DeepView for ExportDesc {
    type V = ExportDescView;

    open spec fn deep_view(&self) -> ExportDescView {
        ExportDescView {
            identifier: self.identifier.deep_view(),
            local_name: self.local_name@,
            mark: self.mark,
        }
    }
}

/// A re-export: `export { original as .. } from source`.
#[derive(Debug, PartialEq, Eq)]
pub struct ReExportDesc {
    pub source: String,
    /// The name in the module that `source` names; `*` for its namespace.
    pub original: String,
    pub mark: Mark,
}

pub ghost struct ReExportDescView {
    pub source: Seq<char>,
    pub original: Seq<char>,
    pub mark: Mark,
}

impl DeepView for ReExportDesc {
    type V = ReExportDescView;

    open spec fn deep_view(&self) -> ReExportDescView {
        ReExportDescView { source: self.source@, original: self.original@, mark: self.mark }
    }
}

/// A dynamic import with a literal argument.
#[derive(Debug, PartialEq, Eq)]
pub struct DynImportDesc {
    pub argument: String,
    pub id: Option<String>,
}

pub ghost struct DynImportDescView {
    pub argument: Seq<char>,
    pub id: Option<Seq<char>>,
}

impl DeepView for DynImportDesc {
    type V = DynImportDescView;

    open spec fn deep_view(&self) -> DynImportDescView {
        DynImportDescView { argument: self.argument@, id: self.id.deep_view() }
    }
}

/// One name that crosses a module boundary.
#[derive(Debug, PartialEq, Eq)]
pub struct Specifier {
    /// The name in the module it comes from: `default`, `*`, or a name.
    pub original: String,
    /// The name at the place of use.
    pub used: String,
    pub mark: Mark,
}

pub ghost struct SpecifierView {
    pub original: Seq<char>,
    pub used: Seq<char>,
    pub mark: Mark,
}

impl DeepView for Specifier {
    type V = SpecifierView;

    open spec fn deep_view(&self) -> SpecifierView {
        SpecifierView { original: self.original@, used: self.used@, mark: self.mark }
    }
}

/// The specifiers that name one source. None at all stands for `import './side-effect'`.
#[derive(Debug, PartialEq, Eq)]
pub struct RelationInfo {
    pub source: String,
    pub names: Vec<Specifier>,
    /// The place of the source among the sources of the module, by first sight.
    pub order: usize,
}

pub ghost struct RelationInfoView {
    pub source: Seq<char>,
    pub names: Seq<SpecifierView>,
    pub order: usize,
}

impl DeepView for RelationInfo {
    type V = RelationInfoView;

    open spec fn deep_view(&self) -> RelationInfoView {
        RelationInfoView {
            source: self.source@,
            names: self.names.deep_view(),
            order: self.order,
        }
    }
}

impl RelationInfo {
    pub fn new(source: String, order: usize) -> (r: RelationInfo)
        ensures
            r.deep_view() == (RelationInfoView { source: source@, names: Seq::empty(), order }),
    {
        let r = RelationInfo { source, names: Vec::new(), order };
        assert(r.names.deep_view() =~= Seq::empty());
        r
    }
}

/// What an import specifier says: which name of the source, under which local name.
pub open spec fn import_specifier_view(s: ImportSpecifier) -> SpecifierView {
    match s {
        ImportSpecifier::Named { local, imported } => SpecifierView {
            original: match imported {
                Some(n) => n.name(),
                None => local.sym@,
            },
            used: local.sym@,
            mark: local.mark,
        },
        ImportSpecifier::Default { local } => SpecifierView {
            original: "default"@,
            used: local.sym@,
            mark: local.mark,
        },
        ImportSpecifier::Namespace { local } => SpecifierView {
            original: "*"@,
            used: local.sym@,
            mark: local.mark,
        },
    }
}

/// The first `n` import specifiers, each as what it says.
pub open spec fn import_specifier_views(specs: Seq<ImportSpecifier>, n: int) -> Seq<SpecifierView> {
    Seq::new(n as nat, |i: int| import_specifier_view(specs[i]))
}

/// The relations with `names` added under `source`: behind the names that
/// the source has already, or as a new relation with the given order.
pub open spec fn with_relation(
    infos: Seq<(Seq<char>, RelationInfoView)>,
    source: Seq<char>,
    order: usize,
    names: Seq<SpecifierView>,
) -> Seq<(Seq<char>, RelationInfoView)> {
    match assoc_get(infos, source) {
        Some(info) => assoc_put(
            infos,
            source,
            RelationInfoView { source: info.source, names: info.names + names, order: info.order },
        ),
        None => assoc_put(infos, source, RelationInfoView { source, names, order }),
    }
}

/// The order that is free after `source` was seen.
pub open spec fn next_order(
    infos: Seq<(Seq<char>, RelationInfoView)>,
    source: Seq<char>,
    order: usize,
) -> int {
    if assoc_get(infos, source) is Some {
        order as int
    } else {
        order + 1
    }
}

/// A source has a relation once names were added under it.
pub proof fn lemma_with_relation(
    infos: Seq<(Seq<char>, RelationInfoView)>,
    source: Seq<char>,
    order: usize,
    names: Seq<SpecifierView>,
)
    ensures
        assoc_get(with_relation(infos, source, order, names), source) is Some,
{
    match assoc_get(infos, source) {
        Some(info) => {
            lemma_assoc_put(
                infos,
                source,
                RelationInfoView {
                    source: info.source,
                    names: info.names + names,
                    order: info.order,
                },
            );
        },
        None => {
            lemma_assoc_put(infos, source, RelationInfoView { source, names, order });
        },
    }
}

/// Adds `names` to the relation of `source`, which is created where the source is new.
pub fn add_relation_names(
    infos: &mut NameMap<RelationInfo>,
    order: &mut usize,
    source: &String,
    names: Vec<Specifier>,
)
    requires
        assoc_get(old(infos).deep_view(), source@) is None ==> *old(order) < usize::MAX,
    ensures
        final(infos).deep_view() == with_relation(
            old(infos).deep_view(),
            source@,
            *old(order),
            names.deep_view(),
        ),
        *final(order) as int == next_order(old(infos).deep_view(), source@, *old(order)),
{
    let ghost before = infos.deep_view();
    let ghost added = names.deep_view();
    let mut names = names;
    match infos.find(source) {
        Some(i) => {
            proof {
                lemma_position_some(assoc_keys(before), source@);
            }
            let ghost had = infos.entries@[i as int].1.deep_view();
            assert(before[i as int] == (source@, had));
            infos.entries[i].1.names.append(&mut names);
            proof {
                assert(infos.entries@[i as int].1.names.deep_view() =~= had.names + added);
                assert(infos.deep_view() =~= before.update(
                    i as int,
                    (
                        source@,
                        RelationInfoView {
                            source: had.source,
                            names: had.names + added,
                            order: had.order,
                        },
                    ),
                ));
            }
        },
        None => {
            let info = RelationInfo { source: source.clone(), names, order: *order };
            infos.insert(source.clone(), info);
            *order = *order + 1;
        },
    }
}

/// The state with a local export entered under `exported`.
pub open spec fn put_local_export(v: ScannerView, exported: Seq<char>, desc: ExportDescView) -> ScannerView {
    ScannerView { local_exports: assoc_put(v.local_exports, exported, desc), ..v }
}

/// The state with a re-export of `original` from `source` entered under `used`.
pub open spec fn put_re_export(
    v: ScannerView,
    source: Seq<char>,
    original: Seq<char>,
    used: Seq<char>,
    mark: Mark,
) -> ScannerView {
    ScannerView {
        re_export_infos: with_relation(
            v.re_export_infos,
            source,
            v.cur_relation_order,
            seq![SpecifierView { original, used, mark }],
        ),
        cur_relation_order: next_order(v.re_export_infos, source, v.cur_relation_order) as usize,
        re_exports: assoc_put(v.re_exports, used, ReExportDescView { source, original, mark }),
        ..v
    }
}

/// The name under which a specifier exports.
pub open spec fn exported_name(orig: ModuleExportName, exported: Option<ModuleExportName>) -> Seq<
    char,
> {
    match exported {
        Some(e) => e.name(),
        None => orig.name(),
    }
}

/// Whether the specifier makes an export, and so takes a mark.
pub open spec fn takes_mark(s: ExportSpecifier, has_src: bool) -> bool {
    match s {
        ExportSpecifier::Named { .. } => true,
        ExportSpecifier::Namespace { .. } => has_src,
        ExportSpecifier::Default { .. } => false,
    }
}

/// The number of marks that the first `n` specifiers take.
pub open spec fn marks_taken(specs: Seq<ExportSpecifier>, has_src: bool, n: int) -> int
    decreases n,
{
    if 0 < n <= specs.len() {
        marks_taken(specs, has_src, n - 1) + (if takes_mark(specs[n - 1], has_src) {
            1int
        } else {
            0int
        })
    } else {
        0
    }
}

/// The state after one export specifier, which gets `mark` where it takes one.
pub open spec fn after_export_specifier(
    v: ScannerView,
    src: Option<Seq<char>>,
    s: ExportSpecifier,
    mark: Mark,
) -> ScannerView {
    match s {
        ExportSpecifier::Named { orig, exported } => match src {
            Some(source) => put_re_export(v, source, orig.name(), exported_name(orig, exported), mark),
            None => put_local_export(
                v,
                exported_name(orig, exported),
                ExportDescView { identifier: None, local_name: orig.name(), mark },
            ),
        },
        ExportSpecifier::Namespace { name } => match src {
            Some(source) => put_re_export(v, source, "*"@, name.name(), mark),
            None => v,
        },
        ExportSpecifier::Default { .. } => v,
    }
}

/// The state after the first `n` export specifiers, with marks from `first` on.
pub open spec fn after_export_specifiers(
    v: ScannerView,
    src: Option<Seq<char>>,
    specs: Seq<ExportSpecifier>,
    first: int,
    n: int,
) -> ScannerView
    decreases n,
{
    if 0 < n <= specs.len() {
        after_export_specifier(
            after_export_specifiers(v, src, specs, first, n - 1),
            src,
            specs[n - 1],
            (first + marks_taken(specs, src is Some, n - 1)) as Mark,
        )
    } else {
        v
    }
}

/// The state after the first `n` of `names` were exported under their own names.
pub open spec fn after_export_names(v: ScannerView, names: Seq<Seq<char>>, first: int, n: int) -> ScannerView
    decreases n,
{
    if 0 < n <= names.len() {
        put_local_export(
            after_export_names(v, names, first, n - 1),
            names[n - 1],
            ExportDescView {
                identifier: None,
                local_name: names[n - 1],
                mark: (first + n - 1) as Mark,
            },
        )
    } else {
        v
    }
}

/// The state with the default export entered, which the current item then defines.
pub open spec fn put_default_export(v: ScannerView, identifier: Option<Seq<char>>, mark: Mark) -> ScannerView {
    ScannerView {
        local_exports: assoc_put(
            v.local_exports,
            "default"@,
            ExportDescView { identifier, local_name: "default"@, mark },
        ),
        current: ModuleItemInfoView { export_mark: Some(mark), ..v.current },
        ..v
    }
}

/// The name that a default export refers to, where it refers to one.
pub open spec fn default_identifier(decl: ModuleDecl) -> Option<Seq<char>> {
    match decl {
        ModuleDecl::ExportDefaultDecl(DefaultDecl::Class { ident: Some(i) }) => Some(i.sym@),
        ModuleDecl::ExportDefaultDecl(DefaultDecl::Fn { ident: Some(i) }) => Some(i.sym@),
        ModuleDecl::ExportDefaultExpr(Expr::Ident(i)) => Some(i.sym@),
        _ => None,
    }
}

/// The most marks that the exports of a declaration can take.
pub open spec fn export_mark_bound(decl: ModuleDecl) -> int {
    match decl {
        ModuleDecl::ExportNamed(n) => n.specifiers@.len() as int,
        ModuleDecl::ExportDecl(Decl::Var(v)) => names_of_declarators(
            v.decls@,
            v.decls@.len() as int,
        ).len() as int,
        _ => 1,
    }
}

/// The number of marks that the exports of a declaration take.
pub open spec fn export_marks(decl: ModuleDecl) -> int {
    match decl {
        ModuleDecl::ExportDefaultDecl(_) => 1,
        ModuleDecl::ExportDefaultExpr(_) => 1,
        ModuleDecl::ExportNamed(n) => marks_taken(
            n.specifiers@,
            n.src is Some,
            n.specifiers@.len() as int,
        ),
        ModuleDecl::ExportDecl(Decl::Class(_)) => 1,
        ModuleDecl::ExportDecl(Decl::Fn(_)) => 1,
        ModuleDecl::ExportDecl(Decl::Var(v)) => names_of_declarators(
            v.decls@,
            v.decls@.len() as int,
        ).len() as int,
        _ => 0,
    }
}

/// The state after the exports of a declaration were entered, with marks from `first` on.
pub open spec fn after_export(v: ScannerView, decl: ModuleDecl, first: int) -> ScannerView {
    match decl {
        ModuleDecl::ExportDefaultDecl(_) => put_default_export(
            v,
            default_identifier(decl),
            first as Mark,
        ),
        ModuleDecl::ExportDefaultExpr(_) => put_default_export(
            v,
            default_identifier(decl),
            first as Mark,
        ),
        ModuleDecl::ExportNamed(n) => after_export_specifiers(
            v,
            n.src.deep_view(),
            n.specifiers@,
            first,
            n.specifiers@.len() as int,
        ),
        ModuleDecl::ExportDecl(Decl::Class(c)) => put_local_export(
            v,
            c.ident.sym@,
            ExportDescView { identifier: None, local_name: c.ident.sym@, mark: first as Mark },
        ),
        ModuleDecl::ExportDecl(Decl::Fn(f)) => put_local_export(
            v,
            f.ident.sym@,
            ExportDescView { identifier: None, local_name: f.ident.sym@, mark: first as Mark },
        ),
        ModuleDecl::ExportDecl(Decl::Var(d)) => {
            let names = names_of_declarators(d.decls@, d.decls@.len() as int);
            after_export_names(v, names, first, names.len() as int)
        },
        ModuleDecl::ExportAll { src } => ScannerView {
            export_all_sources: v.export_all_sources.push((src@, v.cur_relation_order)),
            cur_relation_order: (v.cur_relation_order + 1) as usize,
            ..v
        },
        _ => v,
    }
}

/// The state after an import declaration; any other declaration leaves it as it is.
pub open spec fn after_import(v: ScannerView, decl: ModuleDecl) -> ScannerView {
    match decl {
        ModuleDecl::Import(i) => ScannerView {
            import_infos: with_relation(
                v.import_infos,
                i.src@,
                v.cur_relation_order,
                import_specifier_views(i.specifiers@, i.specifiers@.len() as int),
            ),
            cur_relation_order: next_order(v.import_infos, i.src@, v.cur_relation_order) as usize,
            ..v
        },
        _ => v,
    }
}

/// The literal argument of a dynamic import, where the expression is one with such an argument.
pub open spec fn dynamic_import_argument(e: Expr) -> Option<Seq<char>> {
    match e {
        Expr::Call(Callee::Import, args) => if args@.len() > 0 {
            match args@[0] {
                Expr::Lit(Lit::Str(s)) => Some(s@),
                _ => None,
            }
        } else {
            None
        },
        _ => None,
    }
}

/// Whether the expression is a dynamic import whose argument is no string literal.
pub open spec fn is_opaque_dynamic_import(e: Expr) -> bool {
    e matches Expr::Call(Callee::Import, args) && args@.len() > 0 && dynamic_import_argument(e)
        is None
}

/// Whether a dynamic import of `argument` is recorded.
pub open spec fn has_dynamic_import(imports: Seq<DynImportDescView>, argument: Seq<char>) -> bool {
    exists|i: int| 0 <= i < imports.len() && #[trigger] imports[i].argument == argument
}

impl Scanner {
    /// Enters what an import declaration says under its source.
    pub fn add_import(&mut self, module_decl: &ModuleDecl)
        requires
            old(self).cur_relation_order < usize::MAX,
        ensures
            final(self).deep_view() == after_import(old(self).deep_view(), *module_decl),
    {
        if let ModuleDecl::Import(import_decl) = module_decl {
            let mut names: Vec<Specifier> = Vec::new();
            let mut k: usize = 0;
            while k < import_decl.specifiers.len()
                invariant
                    k <= import_decl.specifiers@.len(),
                    names.deep_view() == import_specifier_views(import_decl.specifiers@, k as int),
                decreases import_decl.specifiers@.len() - k,
            {
                let specifier = match &import_decl.specifiers[k] {
                    ImportSpecifier::Default { local } => Specifier {
                        original: String::from_str("default"),
                        used: local.sym.clone(),
                        mark: local.mark,
                    },
                    ImportSpecifier::Named { local, imported } => Specifier {
                        original: match imported {
                            Some(n) => n.sym(),
                            None => local.sym.clone(),
                        },
                        used: local.sym.clone(),
                        mark: local.mark,
                    },
                    ImportSpecifier::Namespace { local } => Specifier {
                        original: String::from_str("*"),
                        used: local.sym.clone(),
                        mark: local.mark,
                    },
                };
                let ghost before = names.deep_view();
                names.push(specifier);
                k += 1;
                assert(names.deep_view() =~= before.push(specifier.deep_view()));
                assert(names.deep_view() =~= import_specifier_views(
                    import_decl.specifiers@,
                    k as int,
                ));
            }
            add_relation_names(
                &mut self.import_infos,
                &mut self.cur_relation_order,
                &import_decl.src,
                names,
            );
        }
    }

    /// Records a dynamic import with a literal argument, once for each
    /// argument. Returns whether `expr` is a dynamic import with another argument.
    pub fn add_dynamic_import(&mut self, expr: &Expr) -> (flagged: bool)
        ensures
            flagged == is_opaque_dynamic_import(*expr),
            final(self).deep_view() == (ScannerView {
                dynamic_imports: match dynamic_import_argument(*expr) {
                    Some(argument) => if has_dynamic_import(
                        old(self).deep_view().dynamic_imports,
                        argument,
                    ) {
                        old(self).deep_view().dynamic_imports
                    } else {
                        old(self).deep_view().dynamic_imports.push(
                            DynImportDescView { argument, id: None },
                        )
                    },
                    None => old(self).deep_view().dynamic_imports,
                },
                ..old(self).deep_view()
            }),
    {
        if let Expr::Call(Callee::Import, args) = expr {
            if args.len() > 0 {
                if let Expr::Lit(Lit::Str(first_param)) = &args[0] {
                    let ghost imports = self.dynamic_imports.deep_view();
                    assert(dynamic_import_argument(*expr) == Some(first_param@));
                    let mut i: usize = 0;
                    while i < self.dynamic_imports.len()
                        invariant
                            i <= self.dynamic_imports@.len(),
                            imports == self.dynamic_imports.deep_view(),
                            dynamic_import_argument(*expr) == Some(first_param@),
                            is_opaque_dynamic_import(*expr) == false,
                            *self == *old(self),
                            forall|j: int| 0 <= j < i ==> imports[j].argument != first_param@,
                        decreases self.dynamic_imports@.len() - i,
                    {
                        assert(imports[i as int].argument == self.dynamic_imports@[i as int].argument@);
                        if self.dynamic_imports[i].argument == *first_param {
                            assert(has_dynamic_import(imports, first_param@));
                            assert(dynamic_import_argument(*expr) == Some(first_param@));
                            return false;
                        }
                        i += 1;
                    }
                    let desc = DynImportDesc { argument: first_param.clone(), id: None };
                    self.dynamic_imports.push(desc);
                    assert(self.dynamic_imports.deep_view() =~= imports.push(desc.deep_view()));
                    return false;
                }
                return true;
            }
        }
        false
    }

    fn add_local_export(&mut self, exported: String, identifier: Option<String>, local_name: String, mark: Mark)
        ensures
            final(self).deep_view() == put_local_export(
                old(self).deep_view(),
                exported@,
                ExportDescView { identifier: identifier.deep_view(), local_name: local_name@, mark },
            ),
    {
        self.local_exports.insert(exported, ExportDesc { identifier, local_name, mark });
    }

    fn add_re_export(&mut self, source: &String, original: String, used: String, mark: Mark)
        requires
            assoc_get(old(self).deep_view().re_export_infos, source@) is None ==> old(self).cur_relation_order < usize::MAX,
        ensures
            assoc_get(final(self).deep_view().re_export_infos, source@) is Some,
            final(self).deep_view() == put_re_export(
                old(self).deep_view(),
                source@,
                original@,
                used@,
                mark,
            ),
    {
        let mut names: Vec<Specifier> = Vec::new();
        let specifier = Specifier { original: original.clone(), used: used.clone(), mark };
        names.push(specifier);
        assert(names.deep_view() =~= seq![specifier.deep_view()]);
        proof {
            lemma_with_relation(
                self.deep_view().re_export_infos,
                source@,
                self.cur_relation_order,
                names.deep_view(),
            );
        }
        add_relation_names(
            &mut self.re_export_infos,
            &mut self.cur_relation_order,
            source,
            names,
        );
        self.re_exports.insert(used, ReExportDesc { source: source.clone(), original, mark });
    }

    /// Enters what an export declaration says: a descriptor and a mark of its
    /// own for every name it exports, and the source of an `export *`.
    pub fn add_export(&mut self, symbol_box: &mut SymbolBox, module_decl: &ModuleDecl)
        requires
            old(self).cur_relation_order < usize::MAX,
            old(symbol_box).wf(),
            old(symbol_box).len() + export_mark_bound(*module_decl) <= u32::MAX,
        ensures
            final(symbol_box).wf(),
            final(symbol_box).len() == old(symbol_box).len() + export_marks(*module_decl),
            forall|x: Mark| #[trigger] final(symbol_box).root(x) == old(symbol_box).root(x),
            final(self).deep_view() == after_export(
                old(self).deep_view(),
                *module_decl,
                old(symbol_box).len() as int,
            ),
    {
        let ghost start = self.deep_view();
        let ghost first = symbol_box.len() as int;
        match module_decl {
            ModuleDecl::ExportDefaultDecl(node) => {
                let identifier = match node {
                    DefaultDecl::Class { ident: Some(i) } => Some(i.sym.clone()),
                    DefaultDecl::Fn { ident: Some(i) } => Some(i.sym.clone()),
                    _ => None,
                };
                let mark = symbol_box.new_mark();
                self.add_local_export(
                    String::from_str("default"),
                    identifier,
                    String::from_str("default"),
                    mark,
                );
                self.current.export_mark = Some(mark);
            },
            ModuleDecl::ExportDefaultExpr(node) => {
                let identifier = match node {
                    Expr::Ident(i) => Some(i.sym.clone()),
                    _ => None,
                };
                let mark = symbol_box.new_mark();
                self.add_local_export(
                    String::from_str("default"),
                    identifier,
                    String::from_str("default"),
                    mark,
                );
                self.current.export_mark = Some(mark);
            },
            ModuleDecl::ExportNamed(node) => {
                let ghost src = node.src.deep_view();
                let ghost specs = node.specifiers@;
                let mut k: usize = 0;
                while k < node.specifiers.len()
                    invariant
                        k <= specs.len(),
                        specs == node.specifiers@,
                        src == node.src.deep_view(),
                        symbol_box.wf(),
                        marks_taken(specs, src is Some, k as int) <= k,
                        symbol_box.len() == first + marks_taken(specs, src is Some, k as int),
                        first + specs.len() <= u32::MAX,
                        forall|x: Mark| #[trigger] symbol_box.root(x) == old(symbol_box).root(x),
                        self.deep_view() == after_export_specifiers(start, src, specs, first, k as int),
                        self.cur_relation_order == start.cur_relation_order
                            || self.cur_relation_order == start.cur_relation_order + 1,
                        self.cur_relation_order == start.cur_relation_order ==> self.cur_relation_order < usize::MAX,
                        self.cur_relation_order == start.cur_relation_order + 1 ==> src is Some && assoc_get(
                            self.deep_view().re_export_infos,
                            src->Some_0,
                        ) is Some,
                    decreases specs.len() - k,
                {
                    match &node.specifiers[k] {
                        ExportSpecifier::Named { orig, exported } => {
                            let name = match exported {
                                Some(e) => e.sym(),
                                None => orig.sym(),
                            };
                            let mark = symbol_box.new_mark();
                            match &node.src {
                                Some(source) => {
                                    self.add_re_export(source, orig.sym(), name, mark);
                                },
                                None => {
                                    self.add_local_export(name, None, orig.sym(), mark);
                                },
                            }
                        },
                        ExportSpecifier::Namespace { name } => {
                            match &node.src {
                                Some(source) => {
                                    let mark = symbol_box.new_mark();
                                    self.add_re_export(
                                        source,
                                        String::from_str("*"),
                                        name.sym(),
                                        mark,
                                    );
                                },
                                None => {},
                            }
                        },
                        ExportSpecifier::Default { .. } => {},
                    }
                    k += 1;
                }
            },
            ModuleDecl::ExportDecl(node) => match node {
                Decl::Class(c) => {
                    let mark = symbol_box.new_mark();
                    self.add_local_export(c.ident.sym.clone(), None, c.ident.sym.clone(), mark);
                },
                Decl::Fn(f) => {
                    let mark = symbol_box.new_mark();
                    self.add_local_export(f.ident.sym.clone(), None, f.ident.sym.clone(), mark);
                },
                Decl::Var(v) => {
                    let mut names: Vec<String> = Vec::new();
                    let mut d: usize = 0;
                    while d < v.decls.len()
                        invariant
                            d <= v.decls@.len(),
                            views_of(names@) == names_of_declarators(v.decls@, d as int),
                        decreases v.decls@.len() - d,
                    {
                        collect_names_into(&v.decls[d].name, &mut names);
                        d += 1;
                    }
                    let ghost all = views_of(names@);
                    let mut k: usize = 0;
                    while k < names.len()
                        invariant
                            k <= names@.len(),
                            all == views_of(names@),
                            symbol_box.wf(),
                            symbol_box.len() == first + k,
                            first + names@.len() <= u32::MAX,
                            forall|x: Mark| #[trigger] symbol_box.root(x) == old(symbol_box).root(x),
                            self.deep_view() == after_export_names(start, all, first, k as int),
                        decreases names@.len() - k,
                    {
                        assert(all[k as int] == names@[k as int]@);
                        let mark = symbol_box.new_mark();
                        self.add_local_export(names[k].clone(), None, names[k].clone(), mark);
                        k += 1;
                    }
                },
                Decl::Other => {},
            },
            ModuleDecl::ExportAll { src } => {
                let ghost before = self.export_all_sources.deep_view();
                self.export_all_sources.push((src.clone(), self.cur_relation_order));
                self.cur_relation_order = self.cur_relation_order + 1;
                assert(self.export_all_sources.deep_view() =~= before.push(
                    (src@, old(self).cur_relation_order),
                ));
            },
            _ => {},
        }
    }
}

} // verus!
