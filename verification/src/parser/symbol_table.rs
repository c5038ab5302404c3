//! The symbol table: declarations of variables and functions in nested scopes, searched from the
//! global scope inwards, with suggestions for unknown names and checks of calls.

use vstd::prelude::*;
use crate::ast::ast_impl::{AstModel, AstNode, AstNodeWrapper, WrapperModel};
use crate::ast::type_wrapper::{compatible, default_type, type_text, TypeWrapper};
use crate::lexer::token::{Tk, TkModel};
use crate::lirgen::irnode::copy_vec;
use crate::parser::similar::{closest, distances_to, suggest};
use crate::text::{decimal, decimal_string, push_str, strs_match};
use vstd::string::StrSliceExecFns;

verus! {

/// A declared symbol: a variable with its type, or a function with its return type and the
/// types of its arguments.
#[derive(Clone, Debug, PartialEq, Eq, PartialOrd, Ord)]
pub struct Declaration {
    pub name: String,
    pub is_function: bool,
    pub return_type: TypeWrapper,
    pub arguments: Vec<TypeWrapper>,
}

/// A declaration as a mathematical value.
pub struct DeclarationModel {
    pub name: Seq<char>,
    pub is_function: bool,
    pub return_type: TypeWrapper,
    pub arguments: Seq<TypeWrapper>,
}

impl View for Declaration {
    type V = DeclarationModel;

    open spec fn view(&self) -> DeclarationModel {
        DeclarationModel {
            name: self.name@,
            is_function: self.is_function,
            return_type: self.return_type,
            arguments: self.arguments@,
        }
    }
}

impl Declaration {
    /// A copy of the declaration.
    pub fn duplicate(&self) -> (r: Declaration)
        ensures
            r@ == self@,
    {
        Declaration {
            name: self.name.clone(),
            is_function: self.is_function,
            return_type: self.return_type,
            arguments: copy_vec(&self.arguments),
        }
    }
}

impl Default for Declaration {
    /// A variable with an empty name and the default type.
    fn default() -> (r: Declaration)
        ensures
            r@ == (DeclarationModel {
                name: Seq::empty(),
                is_function: false,
                return_type: default_type(),
                arguments: Seq::empty(),
            }),
    {
        Declaration {
            name: String::new(),
            is_function: false,
            return_type: TypeWrapper::default(),
            arguments: Vec::new(),
        }
    }
}

/// The models of a vector of declarations.
pub open spec fn decls_of(v: Seq<Declaration>) -> Seq<DeclarationModel> {
    v.map_values(|d: Declaration| d@)
}

/// The names of a sequence of declarations.
pub open spec fn decl_names(ds: Seq<DeclarationModel>) -> Seq<Seq<char>> {
    ds.map_values(|d: DeclarationModel| d.name)
}

/// The first declaration named `id`, if any.
pub open spec fn lookup(ds: Seq<DeclarationModel>, id: Seq<char>) -> Option<DeclarationModel>
    decreases ds.len(),
{
    if ds.len() == 0 {
        None
    } else if ds[0].name == id {
        Some(ds[0])
    } else {
        lookup(ds.drop_first(), id)
    }
}

/// The identifier named by the callee of a call: the name of an identifier primary, empty for
/// any other expression.
pub open spec fn procedure_identifier(primary: WrapperModel) -> Seq<char> {
    match primary.node {
        AstModel::PrimaryNode(t) => match t.tk {
            TkModel::Identifier(s) => s,
            _ => Seq::empty(),
        },
        _ => Seq::empty(),
    }
}

/// The first argument, from position `i` on, whose type does not match its parameter.
pub open spec fn first_incompatible(params: Seq<TypeWrapper>, args: Seq<WrapperModel>, i: int) -> Option<int>
    decreases params.len() - i,
{
    if i < 0 || i >= params.len() {
        None
    } else if !compatible(params[i], args[i].type_ref) {
        Some(i)
    } else {
        first_incompatible(params, args, i + 1)
    }
}

/// The outcome of checking a call of `primary` with `args` against the declarations `ds`: the
/// declaration of the called function, or the node at fault with what was expected and what was
/// found.
pub open spec fn procedure_check(
    ds: Seq<DeclarationModel>,
    primary: WrapperModel,
    args: Seq<WrapperModel>,
) -> Result<DeclarationModel, (WrapperModel, Seq<char>, Seq<char>)> {
    let name = procedure_identifier(primary);
    if name.len() == 0 {
        Err((primary, "function identifier"@, "expression"@))
    } else if lookup(ds, name) is None {
        Err((primary, "function identifier"@, "undeclared identifier"@))
    } else {
        let d = lookup(ds, name).unwrap();
        if !d.is_function {
            Err((primary, "function identifier"@, "variable identifier"@))
        } else if d.arguments.len() != args.len() {
            Err((primary, decimal(d.arguments.len()) + " arguments"@, decimal(args.len())))
        } else {
            match first_incompatible(d.arguments, args, 0) {
                Some(i) => Err(
                    (args[i], "type "@ + type_text(d.arguments[i]), "type "@ + type_text(
                        args[i].type_ref,
                    )),
                ),
                None => Ok(d),
            }
        }
    }
}

/// The model of the result of a call check.
pub open spec fn check_model(r: Result<Declaration, (AstNodeWrapper, String, String)>) -> Result<
    DeclarationModel,
    (WrapperModel, Seq<char>, Seq<char>),
> {
    match r {
        Ok(d) => Ok(d@),
        Err((n, a, b)) => Err((n@, a@, b@)),
    }
}

/// The declarations of each scope, the global one first, and those waiting for the next scope.
#[derive(Clone, Debug, PartialEq, Eq, PartialOrd, Ord)]
pub struct SymbolTable {
    matrix: Vec<Vec<Declaration>>,
    to_add: Vec<Declaration>,
}

/// Every declaration of a list of scopes, outermost scope first, each in declaration order.
fn all_declarations(matrix: &Vec<Vec<Declaration>>) -> (all: Vec<Declaration>)
    ensures
        decls_of(all@) == matrix@.map_values(|v: Vec<Declaration>| decls_of(v@)).flatten(),
{
    let ghost scopes = matrix@.map_values(|v: Vec<Declaration>| decls_of(v@));
    let mut all: Vec<Declaration> = Vec::new();
    let mut k: usize = 0;
    while k < matrix.len()
        invariant
            k <= matrix.len(),
            scopes == matrix@.map_values(|v: Vec<Declaration>| decls_of(v@)),
            decls_of(all@) == scopes.subrange(0, k as int).flatten_alt(),
        decreases matrix.len() - k,
    {
        let v = &matrix[k];
        let ghost base = decls_of(all@);
        let mut j: usize = 0;
        while j < v.len()
            invariant
                j <= v.len(),
                decls_of(all@) == base + decls_of(v@).subrange(0, j as int),
            decreases v.len() - j,
        {
            let ghost before = all@;
            all.push(v[j].duplicate());
            assert(decls_of(all@) =~= decls_of(before).push(v@[j as int]@));
            assert(decls_of(v@).subrange(0, j + 1) =~= decls_of(v@).subrange(0, j as int).push(
                v@[j as int]@,
            ));
            assert(decls_of(all@) =~= base + decls_of(v@).subrange(0, j + 1));
            j = j + 1;
        }
        proof {
            assert(decls_of(v@).subrange(0, v.len() as int) =~= decls_of(v@));
            let q = scopes.subrange(0, k + 1);
            assert(q.drop_last() =~= scopes.subrange(0, k as int));
            assert(q.last() == decls_of(v@));
        }
        k = k + 1;
    }
    proof {
        assert(scopes.subrange(0, matrix.len() as int) =~= scopes);
        scopes.lemma_flatten_and_flatten_alt_are_equivalent();
    }
    all
}

/// The names of a vector of declarations.
fn names_of_declarations(all: &Vec<Declaration>) -> (names: Vec<String>)
    ensures
        names@.map_values(|s: String| s@) == decl_names(decls_of(all@)),
{
    let mut names: Vec<String> = Vec::new();
    let mut i: usize = 0;
    while i < all.len()
        invariant
            i <= all.len(),
            names@.map_values(|s: String| s@) == decl_names(decls_of(all@)).subrange(0, i as int),
        decreases all.len() - i,
    {
        assert(decl_names(decls_of(all@))[i as int] == all@[i as int].name@);
        let ghost prev = names@;
        names.push(all[i].name.clone());
        assert(names@.map_values(|s: String| s@) =~= prev.map_values(|s: String| s@).push(
            all@[i as int].name@,
        ));
        i = i + 1;
        assert(names@.map_values(|s: String| s@) =~= decl_names(decls_of(all@)).subrange(0, i as int));
    }
    assert(decl_names(decls_of(all@)).subrange(0, all.len() as int) =~= decl_names(decls_of(all@)));
    names
}

/// The first declaration of `all` named `id`.
fn find_declaration(all: &Vec<Declaration>, id: &String) -> (r: Option<Declaration>)
    ensures
        match r {
            Some(d) => lookup(decls_of(all@), id@) == Some(d@),
            None => lookup(decls_of(all@), id@) is None,
        },
{
    let ghost ds = decls_of(all@);
    let n = all.len();
    let mut i: usize = 0;
    assert(ds.subrange(0, n as int) =~= ds);
    while i < n
        invariant
            i <= n,
            n == all.len(),
            ds == decls_of(all@),
            lookup(ds, id@) == lookup(ds.subrange(i as int, n as int), id@),
        decreases n - i,
    {
        let ghost rest = ds.subrange(i as int, n as int);
        assert(rest[0] == all@[i as int]@);
        assert(rest.drop_first() =~= ds.subrange(i + 1, n as int));
        if strs_match(all[i].name.as_str(), id.as_str()) {
            return Some(all[i].duplicate());
        }
        i = i + 1;
    }
    assert(ds.subrange(n as int, n as int) =~= Seq::<DeclarationModel>::empty());
    None
}

impl SymbolTable {
    /// The declarations of each scope, the global one first.
    pub closed spec fn scopes(self) -> Seq<Seq<DeclarationModel>> {
        self.matrix@.map_values(|v: Vec<Declaration>| decls_of(v@))
    }

    /// The declarations waiting to enter the next scope, such as the arguments of a function.
    pub closed spec fn pending(self) -> Seq<DeclarationModel> {
        decls_of(self.to_add@)
    }

    /// Every declaration in scope, the global ones first.
    pub open spec fn declarations(self) -> Seq<DeclarationModel> {
        self.scopes().flatten()
    }

    /// A table with its global scope, which is never removed.
    pub open spec fn wf(self) -> bool {
        self.scopes().len() >= 1
    }

    /// A table holding the empty global scope only.
    pub fn new() -> (r: SymbolTable)
        ensures
            r.wf(),
            r.scopes() == seq![Seq::<DeclarationModel>::empty()],
            r.pending() == Seq::<DeclarationModel>::empty(),
    {
        let mut res = SymbolTable { matrix: Vec::new(), to_add: Vec::new() };
        assert(res.scopes() =~= Seq::<Seq<DeclarationModel>>::empty());
        assert(res.pending() =~= Seq::<DeclarationModel>::empty());
        res.add_scope();
        assert(res.scopes() =~= seq![Seq::<DeclarationModel>::empty()]);
        res
    }

    /// Opens a new innermost scope holding the declarations waiting for it, which then wait no
    /// more.
    pub fn add_scope(&mut self)
        ensures
            final(self).scopes() == old(self).scopes().push(old(self).pending()),
            final(self).pending() == Seq::<DeclarationModel>::empty(),
    {
        let mut scope: Vec<Declaration> = Vec::new();
        scope.append(&mut self.to_add);
        self.matrix.push(scope);
        assert(self.scopes() =~= old(self).scopes().push(old(self).pending()));
        assert(self.pending() =~= Seq::<DeclarationModel>::empty());
    }

    /// Closes the innermost scope; the global scope is never closed.
    pub fn remove_scope(&mut self)
        requires
            old(self).wf(),
            old(self).scopes().len() != 1,
        ensures
            final(self).wf(),
            final(self).scopes() == old(self).scopes().drop_last(),
            final(self).pending() == old(self).pending(),
    {
        self.matrix.pop();
        assert(self.scopes() =~= old(self).scopes().drop_last());
    }

    /// Makes `id` wait for the next scope, unless its name is already declared: `None` and no
    /// change then.
    pub fn add_to_next_scope(&mut self, id: &Declaration) -> (r: Option<()>)
        ensures
            r is None <==> lookup(old(self).declarations(), id.name@) is Some,
            final(self).scopes() == old(self).scopes(),
            r is None ==> final(self).pending() == old(self).pending(),
            r is Some ==> final(self).pending() == old(self).pending().push(id@),
    {
        let res_search = self.search_definition(&id.name);
        if res_search.is_ok() {
            return None;
        }
        let ghost before = self.to_add@;
        self.to_add.push(id.duplicate());
        assert(self.pending() =~= old(self).pending().push(id@));
        Some(())
    }

    /// Declares `id` in the innermost scope, unless its name is already declared: `None` and no
    /// change then.
    pub fn add_definition(&mut self, id: &Declaration) -> (r: Option<()>)
        requires
            old(self).wf(),
        ensures
            final(self).wf(),
            r is None <==> lookup(old(self).declarations(), id.name@) is Some,
            r is None ==> final(self).scopes() == old(self).scopes(),
            r is Some ==> final(self).scopes() == old(self).scopes().update(
                old(self).scopes().len() - 1,
                old(self).scopes().last().push(id@),
            ),
            final(self).pending() == old(self).pending(),
    {
        let res_search = self.search_definition(&id.name);
        if res_search.is_ok() {
            return None;
        }
        let index = self.matrix.len() - 1;
        let mut scope = Vec::new();
        std::mem::swap(&mut scope, &mut self.matrix[index]);
        let ghost before = scope@;
        scope.push(id.duplicate());
        std::mem::swap(&mut scope, &mut self.matrix[index]);
        proof {
            assert(decls_of(self.matrix@[index as int]@) =~= decls_of(before).push(id@));
            assert(self.scopes() =~= old(self).scopes().update(
                old(self).scopes().len() - 1,
                old(self).scopes().last().push(id@),
            ));
        }
        Some(())
    }

    /// The first declaration named `id`, from the global scope inwards; when there is none, the
    /// declared name closest to `id` by edit distance (empty if none is close enough).
    pub fn search_definition(&self, id: &String) -> (r: Result<Declaration, String>)
        ensures
            match r {
                Ok(d) => lookup(self.declarations(), id@) == Some(d@),
                Err(s) => lookup(self.declarations(), id@) is None && s@ == closest(
                    decl_names(self.declarations()),
                    distances_to(decl_names(self.declarations()), id@),
                ).0,
            },
    {
        let all = all_declarations(&self.matrix);
        match find_declaration(&all, id) {
            Some(d) => Ok(d),
            None => {
                let names = names_of_declarations(&all);
                Err(suggest(&names, id))
            },
        }
    }

    /// Checks a call of `primary` with the arguments `args`: the callee must be the identifier of
    /// a declared function taking as many arguments, each of a compatible type. Returns the
    /// function's declaration, or the node at fault with what was expected and what was found.
    pub fn check_procedure(&self, primary: &AstNodeWrapper, args: &Vec<AstNodeWrapper>) -> (r:
        Result<Declaration, (AstNodeWrapper, String, String)>)
        ensures
            check_model(r) == procedure_check(
                self.declarations(),
                primary@,
                args@.map_values(|a: AstNodeWrapper| a@),
            ),
    {
        let ghost am = args@.map_values(|a: AstNodeWrapper| a@);
        let mut identifier = String::new();
        match &primary.node {
            AstNode::PrimaryNode(n) => match &n.tk {
                Tk::Identifier(id) => {
                    identifier = id.clone();
                },
                _ => {},
            },
            _ => {},
        }
        assert(identifier@ == procedure_identifier(primary@));
        if identifier.as_str().unicode_len() == 0 {
            return Err((primary.clone(), text_of("function identifier"), text_of("expression")));
        }
        let decl = match self.search_definition(&identifier) {
            Ok(d) => d,
            Err(_) => {
                return Err(
                    (primary.clone(), text_of("function identifier"), text_of("undeclared identifier")),
                );
            },
        };
        if !decl.is_function {
            return Err(
                (primary.clone(), text_of("function identifier"), text_of("variable identifier")),
            );
        }
        if decl.arguments.len() != args.len() {
            let mut expected = decimal_string(decl.arguments.len() as u64);
            push_str(&mut expected, " arguments");
            return Err((primary.clone(), expected, decimal_string(args.len() as u64)));
        }
        let mut i: usize = 0;
        while i < decl.arguments.len()
            invariant
                i <= decl.arguments.len(),
                decl.arguments.len() == args.len(),
                am == args@.map_values(|a: AstNodeWrapper| a@),
                identifier@ == procedure_identifier(primary@),
                identifier@.len() > 0,
                lookup(self.declarations(), identifier@) == Some(decl@),
                decl.is_function,
                first_incompatible(decl.arguments@, am, 0) == first_incompatible(
                    decl.arguments@,
                    am,
                    i as int,
                ),
            decreases decl.arguments.len() - i,
        {
            assert(am[i as int] == args@[i as int]@);
            if !TypeWrapper::are_compatible(&decl.arguments[i], &args[i].type_ref) {
                let mut expected = text_of("type ");
                decl.arguments[i].push_text(&mut expected);
                let mut found = text_of("type ");
                args[i].type_ref.push_text(&mut found);
                let node = args[i].clone();
                proof {
                    assert(am[i as int].type_ref == args@[i as int].type_ref);
                    assert(first_incompatible(decl.arguments@, am, i as int) == Some(i as int));
                    assert(node@ == am[i as int]);
                    assert(expected@ == "type "@ + type_text(decl.arguments@[i as int]));
                    assert(found@ == "type "@ + type_text(am[i as int].type_ref));
                }
                return Err((node, expected, found));
            }
            i = i + 1;
        }
        Ok(decl.duplicate())
    }
}

/// Looking up in a sequence extended by one declaration finds the earlier declaration if there is
/// one, else the new one if it has the name.
pub proof fn lemma_lookup_push(ds: Seq<DeclarationModel>, x: DeclarationModel, id: Seq<char>)
    ensures
        lookup(ds.push(x), id) == if lookup(ds, id) is Some {
            lookup(ds, id)
        } else if x.name == id {
            Some(x)
        } else {
            None
        },
    decreases ds.len(),
{
    if ds.len() > 0 {
        assert(ds.push(x)[0] == ds[0]);
        assert(ds.push(x).drop_first() =~= ds.drop_first().push(x));
        lemma_lookup_push(ds.drop_first(), x, id);
    } else {
        assert(ds.push(x)[0] == x);
        assert(ds.push(x).drop_first() =~= Seq::<DeclarationModel>::empty());
        assert(lookup(Seq::<DeclarationModel>::empty(), id) is None);
    }
}

/// Adding to the innermost scope adds at the end of the declarations in scope.
pub proof fn lemma_flatten_push_last<A>(scopes: Seq<Seq<A>>, x: A)
    requires
        scopes.len() >= 1,
    ensures
        scopes.update(scopes.len() - 1, scopes.last().push(x)).flatten() == scopes.flatten().push(x),
{
    let t = scopes.update(scopes.len() - 1, scopes.last().push(x));
    scopes.lemma_flatten_and_flatten_alt_are_equivalent();
    t.lemma_flatten_and_flatten_alt_are_equivalent();
    assert(t.drop_last() =~= scopes.drop_last());
    assert(t.flatten_alt() =~= scopes.flatten_alt().push(x));
}

/// Once `add_definition` has declared `d`, searching its name gives `d` back.
pub proof fn lemma_define_then_search(scopes: Seq<Seq<DeclarationModel>>, d: DeclarationModel)
    requires
        scopes.len() >= 1,
        lookup(scopes.flatten(), d.name) is None,
    ensures
        lookup(scopes.update(scopes.len() - 1, scopes.last().push(d)).flatten(), d.name) == Some(d),
{
    lemma_flatten_push_last(scopes, d);
    lemma_lookup_push(scopes.flatten(), d, d.name);
}

/// Once a declaration waiting for the next scope has entered it with `add_scope`, searching its
/// name finds it, unless an earlier declaration has the same name.
pub proof fn lemma_pending_then_search(
    scopes: Seq<Seq<DeclarationModel>>,
    pending: Seq<DeclarationModel>,
    i: int,
)
    requires
        0 <= i < pending.len(),
        lookup(scopes.flatten(), pending[i].name) is None,
        forall|j: int| 0 <= j < i ==> #[trigger] pending[j].name != pending[i].name,
    ensures
        lookup(scopes.push(pending).flatten(), pending[i].name) == Some(pending[i]),
{
    let t = scopes.push(pending);
    scopes.lemma_flatten_and_flatten_alt_are_equivalent();
    t.lemma_flatten_and_flatten_alt_are_equivalent();
    assert(t.drop_last() =~= scopes);
    lemma_lookup_concat(scopes.flatten(), pending, i);
}

/// Looking up, in a sequence followed by more declarations, a name absent from the sequence and
/// first declared at position `i` of the rest finds that declaration.
pub proof fn lemma_lookup_concat(ds: Seq<DeclarationModel>, rest: Seq<DeclarationModel>, i: int)
    requires
        0 <= i < rest.len(),
        lookup(ds, rest[i].name) is None,
        forall|j: int| 0 <= j < i ==> #[trigger] rest[j].name != rest[i].name,
    ensures
        lookup(ds + rest, rest[i].name) == Some(rest[i]),
    decreases ds.len(),
{
    if ds.len() > 0 {
        assert((ds + rest).drop_first() =~= ds.drop_first() + rest);
        lemma_lookup_concat(ds.drop_first(), rest, i);
    } else {
        assert(ds + rest =~= rest);
        lemma_lookup_index(rest, i);
    }
}

/// Looking up the name at position `i`, declared nowhere before, finds that declaration.
pub proof fn lemma_lookup_index(ds: Seq<DeclarationModel>, i: int)
    requires
        0 <= i < ds.len(),
        forall|j: int| 0 <= j < i ==> #[trigger] ds[j].name != ds[i].name,
    ensures
        lookup(ds, ds[i].name) == Some(ds[i]),
    decreases i,
{
    if i > 0 {
        let t = ds.drop_first();
        assert forall|j: int| 0 <= j < i - 1 implies #[trigger] t[j].name != t[i - 1].name by {
            assert(t[j] == ds[j + 1]);
        }
        lemma_lookup_index(t, i - 1);
    }
}

/// Closing a scope just opened gives back the scopes there were before.
pub proof fn lemma_add_then_remove_scope(scopes: Seq<Seq<DeclarationModel>>, pending: Seq<DeclarationModel>)
    ensures
        scopes.push(pending).drop_last() == scopes,
{
    assert(scopes.push(pending).drop_last() =~= scopes);
}

/// The scopes after `add_definition` of each of `ds` in order: a declaration whose name is
/// already declared changes nothing, another joins the innermost scope.
pub open spec fn after_definitions(scopes: Seq<Seq<DeclarationModel>>, ds: Seq<DeclarationModel>) -> Seq<
    Seq<DeclarationModel>,
>
    decreases ds.len(),
{
    if ds.len() == 0 {
        scopes
    } else {
        let prev = after_definitions(scopes, ds.drop_last());
        if lookup(prev.flatten(), ds.last().name) is Some || prev.len() == 0 {
            prev
        } else {
            prev.update(prev.len() - 1, prev.last().push(ds.last()))
        }
    }
}

/// Definitions touch the innermost scope only.
proof fn lemma_definitions_keep_outer(scopes: Seq<Seq<DeclarationModel>>, ds: Seq<DeclarationModel>)
    requires
        scopes.len() >= 1,
    ensures
        after_definitions(scopes, ds).len() == scopes.len(),
        after_definitions(scopes, ds).drop_last() == scopes.drop_last(),
    decreases ds.len(),
{
    if ds.len() > 0 {
        lemma_definitions_keep_outer(scopes, ds.drop_last());
        let prev = after_definitions(scopes, ds.drop_last());
        if !(lookup(prev.flatten(), ds.last().name) is Some) {
            assert(prev.update(prev.len() - 1, prev.last().push(ds.last())).drop_last() =~= prev.drop_last());
        }
    }
}

/// Opening a scope, defining names in it and closing it gives back the scopes there were
/// before, so every search finds what it found before; nothing is left waiting.
pub proof fn lemma_scope_round_trip(
    scopes: Seq<Seq<DeclarationModel>>,
    pending: Seq<DeclarationModel>,
    ds: Seq<DeclarationModel>,
)
    ensures
        after_definitions(scopes.push(pending), ds).drop_last() == scopes,
        after_definitions(scopes.push(pending), ds).drop_last().flatten() == scopes.flatten(),
{
    lemma_definitions_keep_outer(scopes.push(pending), ds);
    assert(scopes.push(pending).drop_last() =~= scopes);
}

/// Looking up a name declared in a sequence still finds the same declaration once more
/// declarations follow.
pub proof fn lemma_lookup_prefix(ds: Seq<DeclarationModel>, rest: Seq<DeclarationModel>, id: Seq<char>)
    requires
        lookup(ds, id) is Some,
    ensures
        lookup(ds + rest, id) == lookup(ds, id),
    decreases ds.len(),
{
    if ds[0].name != id {
        assert((ds + rest).drop_first() =~= ds.drop_first() + rest);
        lemma_lookup_prefix(ds.drop_first(), rest, id);
    }
}

/// `add_scope` with declarations waiting of distinct names, none declared yet: each is then
/// found, and every name found before is still found with the same declaration.
pub proof fn lemma_add_scope_finds_pending(scopes: Seq<Seq<DeclarationModel>>, pending: Seq<DeclarationModel>)
    requires
        forall|i: int, j: int| 0 <= i < j < pending.len() ==> #[trigger] pending[i].name != #[trigger] pending[j].name,
        forall|i: int| 0 <= i < pending.len() ==> lookup(scopes.flatten(), #[trigger] pending[i].name) is None,
    ensures
        forall|i: int|
            0 <= i < pending.len() ==> lookup(scopes.push(pending).flatten(), #[trigger] pending[i].name) == Some(
                pending[i],
            ),
        forall|id: Seq<char>|
            #[trigger] lookup(scopes.flatten(), id) is Some ==> lookup(scopes.push(pending).flatten(), id)
                == lookup(scopes.flatten(), id),
{
    let t = scopes.push(pending);
    scopes.lemma_flatten_and_flatten_alt_are_equivalent();
    t.lemma_flatten_and_flatten_alt_are_equivalent();
    assert(t.drop_last() =~= scopes);
    assert(t.flatten() == scopes.flatten() + pending);
    assert forall|i: int| 0 <= i < pending.len() implies lookup(scopes.push(pending).flatten(), #[trigger] pending[i].name)
        == Some(pending[i]) by {
        lemma_pending_then_search(scopes, pending, i);
    }
    assert forall|id: Seq<char>| #[trigger] lookup(scopes.flatten(), id) is Some implies lookup(
        scopes.push(pending).flatten(),
        id,
    ) == lookup(scopes.flatten(), id) by {
        lemma_lookup_prefix(scopes.flatten(), pending, id);
    }
}

/// A new string holding `t`.
fn text_of(t: &str) -> (s: String)
    ensures
        s@ == t@,
{
    let mut s = String::new();
    push_str(&mut s, t);
    assert(s@ =~= t@);
    s
}

} // verus!
