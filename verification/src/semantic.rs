//! Semantic analysis: functions are declared once, variables are declared
//! once and used after their declaration, calls match their function's
//! parameters, and the types of expressions agree.
use vstd::prelude::*;
use crate::text::{string_push_str, push_decimal, decimal};
use crate::structure::{
    Span, CompilerError, ErrorView, Type, Value, Expression, ExpressionKind, ExprView,
    ExprKindView, ValueView, VariableView, Argument, ArgumentView, Statement, StatementView, Function,
    FunctionView, FileItem, FileItemView, SourceFile, SourceFileView, Program, ProgramView,
    exprs_view, lemma_exprs_view,
};

verus! {

broadcast use vstd::string::group_string_axioms;

/// What the analysis keeps of a function: its name, parameters and type.
pub struct SignatureView {
    pub name: Seq<char>,
    pub parameters: Seq<ArgumentView>,
    pub return_type: Type,
}

/// The signature of a function.
pub open spec fn signature_of(f: FunctionView) -> SignatureView {
    SignatureView { name: f.name, parameters: f.parameters, return_type: f.return_type }
}

/// The first signature of the given name.
pub open spec fn find_signature(sigs: Seq<SignatureView>, name: Seq<char>) -> Option<SignatureView>
    decreases sigs.len(),
{
    if sigs.len() == 0 {
        None
    } else if sigs[0].name == name {
        Some(sigs[0])
    } else {
        find_signature(sigs.drop_first(), name)
    }
}

/// No two signatures have the same name.
pub open spec fn distinct_names(sigs: Seq<SignatureView>) -> bool {
    forall|i: int, j: int| 0 <= i < j < sigs.len() ==> sigs[i].name != sigs[j].name
}

/// The text of a type as its debug form writes it.
pub open spec fn type_text(t: Type) -> Seq<char> {
    match t {
        Type::Int => "Int"@,
        Type::Float => "Float"@,
        Type::Text => "Text"@,
        Type::Void => "Void"@,
    }
}

/// The variables in scope, each with its type; a later binding of a name
/// hides an earlier one.
pub open spec fn scope_of(b: Seq<(Seq<char>, Type)>) -> Map<Seq<char>, Type>
    decreases b.len(),
{
    if b.len() == 0 {
        Map::empty()
    } else {
        scope_of(b.drop_last()).insert(b.last().0, b.last().1)
    }
}

/// An error of the analysis, in the file of path `path`.
pub open spec fn analysis_error(path: Seq<char>, message: Seq<char>, span: Span) -> ErrorView {
    ErrorView { file: path, message, span }
}

/// The type of an expression, or the first error found in it, from the left.
pub open spec fn expr_type(
    sigs: Seq<SignatureView>,
    vars: Map<Seq<char>, Type>,
    e: ExprView,
    path: Seq<char>,
) -> Result<Type, ErrorView>
    decreases e,
{
    match e.kind {
        ExprKindView::Value(v) => match v {
            ValueView::Int(_) => Ok(Type::Int),
            ValueView::Float(_) => Ok(Type::Float),
            ValueView::String(_) => Ok(Type::Text),
        },
        ExprKindView::Variable(name) => if vars.contains_key(name) {
            Ok(vars[name])
        } else {
            Err(analysis_error(path, "Variable inconnue '"@ + name + "'"@, e.span))
        },
        ExprKindView::FunctionCall(call) => match find_signature(sigs, call.name) {
            None => Err(analysis_error(path, "Fonction inconnue '"@ + call.name + "'"@, call.span)),
            Some(sig) => if sig.parameters.len() != call.arguments.len() {
                Err(
                    analysis_error(
                        path,
                        "La fonction '"@ + call.name + "' attend "@ + decimal(sig.parameters.len())
                            + " arguments mais "@ + decimal(call.arguments.len()) + " reçu(s)"@,
                        call.span,
                    ),
                )
            } else {
                match arguments_check(sigs, vars, call.arguments, sig.parameters, path) {
                    Err(err) => Err(err),
                    Ok(_) => Ok(sig.return_type),
                }
            },
        },
        ExprKindView::Operation(op) => match expr_type(sigs, vars, *op.left, path) {
            Err(err) => Err(err),
            Ok(left) => match expr_type(sigs, vars, *op.right, path) {
                Err(err) => Err(err),
                Ok(right) => if left != right {
                    Err(analysis_error(path, "Types incompatibles dans l'opération"@, op.span))
                } else {
                    Ok(left)
                },
            },
        },
    }
}

/// The arguments of a call checked one by one against the parameters, from
/// the first: the first argument whose type is wrong or holds an error.
pub open spec fn arguments_check(
    sigs: Seq<SignatureView>,
    vars: Map<Seq<char>, Type>,
    args: Seq<ExprView>,
    params: Seq<ArgumentView>,
    path: Seq<char>,
) -> Result<(), ErrorView>
    decreases args,
{
    if args.len() == 0 || params.len() == 0 {
        Ok(())
    } else {
        match arguments_check(sigs, vars, args.drop_last(), params.drop_last(), path) {
            Err(err) => Err(err),
            Ok(_) => match expr_type(sigs, vars, args.last(), path) {
                Err(err) => Err(err),
                Ok(ty) => if ty != params.last().arg_type {
                    Err(analysis_error(path, "Argument '"@ + params.last().name + "' invalide"@, args.last().span))
                } else {
                    Ok(())
                },
            },
        }
    }
}

/// A statement checked in a scope: the scope after it, or its first error.
pub open spec fn statement_check(
    sigs: Seq<SignatureView>,
    vars: Map<Seq<char>, Type>,
    st: StatementView,
    path: Seq<char>,
) -> Result<Map<Seq<char>, Type>, ErrorView> {
    match st {
        StatementView::VariableDeclaration(v) => if vars.contains_key(v.name) {
            Err(analysis_error(path, "Variable '"@ + v.name + "' déjà déclarée"@, v.span))
        } else {
            match v.value {
                Some(e) => match expr_type(sigs, vars, e, path) {
                    Err(err) => Err(err),
                    Ok(ty) => if ty != v.var_type {
                        Err(
                            analysis_error(
                                path,
                                "Type attendu "@ + type_text(v.var_type) + " mais "@ + type_text(ty)
                                    + " reçu"@,
                                v.span,
                            ),
                        )
                    } else {
                        Ok(vars.insert(v.name, v.var_type))
                    },
                },
                None => Ok(vars.insert(v.name, v.var_type)),
            }
        },
        StatementView::Return(r) => match r.value {
            Some(e) => match expr_type(sigs, vars, e, path) {
                Err(err) => Err(err),
                Ok(_) => Ok(vars),
            },
            None => Ok(vars),
        },
        StatementView::Expression(e) => match expr_type(sigs, vars, e, path) {
            Err(err) => Err(err),
            Ok(_) => Ok(vars),
        },
    }
}

/// Statements checked one after the other from a scope.
pub open spec fn statements_check(
    sigs: Seq<SignatureView>,
    vars: Map<Seq<char>, Type>,
    body: Seq<StatementView>,
    path: Seq<char>,
) -> Result<Map<Seq<char>, Type>, ErrorView>
    decreases body.len(),
{
    if body.len() == 0 {
        Ok(vars)
    } else {
        match statements_check(sigs, vars, body.drop_last(), path) {
            Err(err) => Err(err),
            Ok(scope) => statement_check(sigs, scope, body.last(), path),
        }
    }
}

/// The scope made of the parameters; a later parameter of the same name
/// hides an earlier one.
pub open spec fn parameters_scope(params: Seq<ArgumentView>) -> Map<Seq<char>, Type>
    decreases params.len(),
{
    if params.len() == 0 {
        Map::empty()
    } else {
        parameters_scope(params.drop_last()).insert(params.last().name, params.last().arg_type)
    }
}

/// A function checked: its body, in the scope of its parameters.
pub open spec fn function_check(sigs: Seq<SignatureView>, f: FunctionView, path: Seq<char>) -> Result<(), ErrorView> {
    match statements_check(sigs, parameters_scope(f.parameters), f.body, path) {
        Err(err) => Err(err),
        Ok(_) => Ok(()),
    }
}

/// The functions of the items checked one after the other.
pub open spec fn items_check(sigs: Seq<SignatureView>, items: Seq<FileItemView>, path: Seq<char>) -> Result<(), ErrorView>
    decreases items.len(),
{
    if items.len() == 0 {
        Ok(())
    } else {
        match items_check(sigs, items.drop_last(), path) {
            Err(err) => Err(err),
            Ok(_) => match items.last() {
                FileItemView::Function(f) => function_check(sigs, f, path),
                FileItemView::Variable(_) => Ok(()),
            },
        }
    }
}

/// The functions of the files checked one after the other.
pub open spec fn files_check(sigs: Seq<SignatureView>, files: Seq<SourceFileView>) -> Result<(), ErrorView>
    decreases files.len(),
{
    if files.len() == 0 {
        Ok(())
    } else {
        match files_check(sigs, files.drop_last()) {
            Err(err) => Err(err),
            Ok(_) => items_check(sigs, files.last().items, files.last().path),
        }
    }
}

/// The signatures collected from the items of a file of path `path`, after
/// `sigs`; a function whose name is taken gives an error, with the
/// signatures collected before it.
pub open spec fn collect_items(sigs: Seq<SignatureView>, items: Seq<FileItemView>, path: Seq<char>) -> (
    Result<(), ErrorView>,
    Seq<SignatureView>,
)
    decreases items.len(),
{
    if items.len() == 0 {
        (Ok(()), sigs)
    } else {
        let (r, s) = collect_items(sigs, items.drop_last(), path);
        match r {
            Err(err) => (Err(err), s),
            Ok(_) => match items.last() {
                FileItemView::Function(f) => if find_signature(s, f.name) is Some {
                    (Err(analysis_error(path, "Fonction '"@ + f.name + "' déjà déclarée"@, f.span)), s)
                } else {
                    (Ok(()), s.push(signature_of(f)))
                },
                FileItemView::Variable(_) => (Ok(()), s),
            },
        }
    }
}

/// The signatures collected from all the files, after `sigs`.
pub open spec fn collect_files(sigs: Seq<SignatureView>, files: Seq<SourceFileView>) -> (
    Result<(), ErrorView>,
    Seq<SignatureView>,
)
    decreases files.len(),
{
    if files.len() == 0 {
        (Ok(()), sigs)
    } else {
        let (r, s) = collect_files(sigs, files.drop_last());
        match r {
            Err(err) => (Err(err), s),
            Ok(_) => collect_items(s, files.last().items, files.last().path),
        }
    }
}

/// The whole analysis from the signatures `sigs`: collect the functions of
/// all the files, then check each function. Gives the outcome and the
/// signatures known at the end.
pub open spec fn analysis(sigs: Seq<SignatureView>, p: ProgramView) -> (Result<(), ErrorView>, Seq<SignatureView>) {
    let (r, s) = collect_files(sigs, p.files);
    match r {
        Err(err) => (Err(err), s),
        Ok(_) => (files_check(s, p.files), s),
    }
}

// ---------------------------------------------------------------------------
// Facts used by the analysis.
/// Where the first `k` arguments hold an error, all of them give that error.
pub proof fn lemma_arguments_prefix_error(
    sigs: Seq<SignatureView>,
    vars: Map<Seq<char>, Type>,
    args: Seq<ExprView>,
    params: Seq<ArgumentView>,
    path: Seq<char>,
    k: int,
)
    requires
        0 <= k <= args.len(),
        args.len() == params.len(),
        arguments_check(sigs, vars, args.subrange(0, k), params.subrange(0, k), path) is Err,
    ensures
        arguments_check(sigs, vars, args, params, path) == arguments_check(
            sigs,
            vars,
            args.subrange(0, k),
            params.subrange(0, k),
            path,
        ),
    decreases args.len() - k,
{
    if k == args.len() {
        assert(args.subrange(0, k) =~= args);
        assert(params.subrange(0, k) =~= params);
    } else {
        assert(args.drop_last().subrange(0, k) =~= args.subrange(0, k));
        assert(params.drop_last().subrange(0, k) =~= params.subrange(0, k));
        lemma_arguments_prefix_error(sigs, vars, args.drop_last(), params.drop_last(), path, k);
    }
}

/// A call has the type that its function is declared to return: where the
/// called name is found among the signatures, the call gives as many
/// arguments as the function has parameters and they check, the call's type
/// is the return type of the signature of that name; and where a call has a
/// type at all, a signature of its name was found.
pub proof fn lemma_call_type_is_return_type(
    sigs: Seq<SignatureView>,
    vars: Map<Seq<char>, Type>,
    e: ExprView,
    path: Seq<char>,
)
    requires
        e.kind is FunctionCall,
    ensures
        ({
            let call = e.kind->FunctionCall_0;
            &&& find_signature(sigs, call.name) matches Some(sig) ==> (
                sig.parameters.len() == call.arguments.len()
                && arguments_check(sigs, vars, call.arguments, sig.parameters, path) is Ok
                ==> expr_type(sigs, vars, e, path) == Ok::<Type, ErrorView>(sig.return_type))
            &&& expr_type(sigs, vars, e, path) is Ok ==> (find_signature(sigs, call.name) matches Some(sig)
                && sig.name == call.name
                && expr_type(sigs, vars, e, path) == Ok::<Type, ErrorView>(sig.return_type))
        }),
{
    lemma_find_signature_name(sigs, e.kind->FunctionCall_0.name);
}

/// The signature found for a name bears that name.
proof fn lemma_find_signature_name(sigs: Seq<SignatureView>, name: Seq<char>)
    ensures
        find_signature(sigs, name) matches Some(sig) ==> sig.name == name,
    decreases sigs.len(),
{
    if sigs.len() > 0 && sigs[0].name != name {
        lemma_find_signature_name(sigs.drop_first(), name);
    }
}

/// A variable declared with the type that the called function returns is
/// accepted: in a scope where the name is new, `T x = g(...)` with `g`
/// declared to return `T`, given the right number of arguments that check,
/// adds `x` of type `T` to the scope.
pub proof fn lemma_declaration_from_call(
    sigs: Seq<SignatureView>,
    vars: Map<Seq<char>, Type>,
    v: VariableView,
    path: Seq<char>,
)
    requires
        !vars.contains_key(v.name),
        v.value matches Some(e) && e.kind is FunctionCall,
        find_signature(sigs, v.value->0.kind->FunctionCall_0.name) matches Some(sig)
            && sig.return_type == v.var_type
            && sig.parameters.len() == v.value->0.kind->FunctionCall_0.arguments.len()
            && arguments_check(sigs, vars, v.value->0.kind->FunctionCall_0.arguments, sig.parameters, path) is Ok,
    ensures
        statement_check(sigs, vars, StatementView::VariableDeclaration(v), path)
            == Ok::<Map<Seq<char>, Type>, ErrorView>(vars.insert(v.name, v.var_type)),
{
    lemma_call_type_is_return_type(sigs, vars, v.value->0, path);
}

/// A name is found exactly where some signature bears it.
pub proof fn lemma_find_signature(sigs: Seq<SignatureView>, name: Seq<char>)
    ensures
        find_signature(sigs, name) is None <==> forall|i: int| 0 <= i < sigs.len() ==> #[trigger] sigs[i].name != name,
    decreases sigs.len(),
{
    if sigs.len() > 0 {
        lemma_find_signature(sigs.drop_first(), name);
        if sigs[0].name != name {
            assert forall|i: int| 0 <= i < sigs.len() && (forall|j: int| 0 <= j < sigs.drop_first().len() ==> #[trigger] sigs.drop_first()[j].name != name) implies #[trigger] sigs[i].name != name by {
                if i > 0 {
                    assert(sigs[i] == sigs.drop_first()[i - 1]);
                }
            }
            assert((forall|i: int| 0 <= i < sigs.len() ==> #[trigger] sigs[i].name != name) ==> (forall|j: int| 0 <= j < sigs.drop_first().len() ==> #[trigger] sigs.drop_first()[j].name != name)) by {
                if forall|i: int| 0 <= i < sigs.len() ==> #[trigger] sigs[i].name != name {
                    assert forall|j: int| 0 <= j < sigs.drop_first().len() implies #[trigger] sigs.drop_first()[j].name != name by {
                        assert(sigs.drop_first()[j] == sigs[j + 1]);
                    }
                }
            }
        }
    }
}

/// Where the first `k` statements hold an error, all of them give it.
pub proof fn lemma_statements_prefix_error(
    sigs: Seq<SignatureView>,
    vars: Map<Seq<char>, Type>,
    body: Seq<StatementView>,
    path: Seq<char>,
    k: int,
)
    requires
        0 <= k <= body.len(),
        statements_check(sigs, vars, body.subrange(0, k), path) is Err,
    ensures
        statements_check(sigs, vars, body, path) == statements_check(sigs, vars, body.subrange(0, k), path),
    decreases body.len() - k,
{
    if k == body.len() {
        assert(body.subrange(0, k) =~= body);
    } else {
        assert(body.drop_last().subrange(0, k) =~= body.subrange(0, k));
        lemma_statements_prefix_error(sigs, vars, body.drop_last(), path, k);
    }
}

/// Where the first `k` items hold an error, all of them give it.
pub proof fn lemma_items_prefix_error(sigs: Seq<SignatureView>, items: Seq<FileItemView>, path: Seq<char>, k: int)
    requires
        0 <= k <= items.len(),
        items_check(sigs, items.subrange(0, k), path) is Err,
    ensures
        items_check(sigs, items, path) == items_check(sigs, items.subrange(0, k), path),
    decreases items.len() - k,
{
    if k == items.len() {
        assert(items.subrange(0, k) =~= items);
    } else {
        assert(items.drop_last().subrange(0, k) =~= items.subrange(0, k));
        lemma_items_prefix_error(sigs, items.drop_last(), path, k);
    }
}

/// Where the first `k` files hold an error, all of them give it.
pub proof fn lemma_files_prefix_error(sigs: Seq<SignatureView>, files: Seq<SourceFileView>, k: int)
    requires
        0 <= k <= files.len(),
        files_check(sigs, files.subrange(0, k)) is Err,
    ensures
        files_check(sigs, files) == files_check(sigs, files.subrange(0, k)),
    decreases files.len() - k,
{
    if k == files.len() {
        assert(files.subrange(0, k) =~= files);
    } else {
        assert(files.drop_last().subrange(0, k) =~= files.subrange(0, k));
        lemma_files_prefix_error(sigs, files.drop_last(), k);
    }
}

/// Where collecting the first `k` items fails, collecting all of them fails
/// the same way.
pub proof fn lemma_collect_items_prefix_error(sigs: Seq<SignatureView>, items: Seq<FileItemView>, path: Seq<char>, k: int)
    requires
        0 <= k <= items.len(),
        collect_items(sigs, items.subrange(0, k), path).0 is Err,
    ensures
        collect_items(sigs, items, path) == collect_items(sigs, items.subrange(0, k), path),
    decreases items.len() - k,
{
    if k == items.len() {
        assert(items.subrange(0, k) =~= items);
    } else {
        assert(items.drop_last().subrange(0, k) =~= items.subrange(0, k));
        lemma_collect_items_prefix_error(sigs, items.drop_last(), path, k);
    }
}

/// Where collecting from the first `k` files fails, collecting from all of
/// them fails the same way.
pub proof fn lemma_collect_files_prefix_error(sigs: Seq<SignatureView>, files: Seq<SourceFileView>, k: int)
    requires
        0 <= k <= files.len(),
        collect_files(sigs, files.subrange(0, k)).0 is Err,
    ensures
        collect_files(sigs, files) == collect_files(sigs, files.subrange(0, k)),
    decreases files.len() - k,
{
    if k == files.len() {
        assert(files.subrange(0, k) =~= files);
    } else {
        assert(files.drop_last().subrange(0, k) =~= files.subrange(0, k));
        lemma_collect_files_prefix_error(sigs, files.drop_last(), k);
    }
}

// ---------------------------------------------------------------------------
// A function declared twice is refused.
/// Signatures found stay found when more are added after them.
pub proof fn lemma_find_signature_extend(sigs: Seq<SignatureView>, more: Seq<SignatureView>, name: Seq<char>)
    requires
        find_signature(sigs, name) is Some,
    ensures
        find_signature(sigs + more, name) is Some,
{
    lemma_find_signature(sigs, name);
    lemma_find_signature(sigs + more, name);
    let i = choose|i: int| 0 <= i < sigs.len() && #[trigger] sigs[i].name == name;
    assert((sigs + more)[i] == sigs[i]);
}

/// A signature pushed is found by its name.
pub proof fn lemma_find_signature_push(sigs: Seq<SignatureView>, sig: SignatureView)
    ensures
        find_signature(sigs.push(sig), sig.name) is Some,
{
    lemma_find_signature(sigs.push(sig), sig.name);
    assert(sigs.push(sig)[sigs.len() as int].name == sig.name);
}

/// Collecting keeps the signatures known before, and adds after them.
pub proof fn lemma_collect_items_extends(sigs: Seq<SignatureView>, items: Seq<FileItemView>, path: Seq<char>)
    ensures
        exists|more: Seq<SignatureView>| collect_items(sigs, items, path).1 == sigs + more,
    decreases items.len(),
{
    if items.len() == 0 {
        assert(sigs + seq![] =~= sigs);
    } else {
        lemma_collect_items_extends(sigs, items.drop_last(), path);
        let s = collect_items(sigs, items.drop_last(), path).1;
        let more = choose|more: Seq<SignatureView>| s == sigs + more;
        if let FileItemView::Function(f) = items.last() {
            assert(s.push(signature_of(f)) =~= sigs + more.push(signature_of(f)));
        }
    }
}

/// Collecting from files keeps the signatures known before.
pub proof fn lemma_collect_files_extends(sigs: Seq<SignatureView>, files: Seq<SourceFileView>)
    ensures
        exists|more: Seq<SignatureView>| collect_files(sigs, files).1 == sigs + more,
    decreases files.len(),
{
    if files.len() == 0 {
        assert(sigs + seq![] =~= sigs);
    } else {
        lemma_collect_files_extends(sigs, files.drop_last());
        let (r, s) = collect_files(sigs, files.drop_last());
        let more = choose|more: Seq<SignatureView>| s == sigs + more;
        if r is Ok {
            lemma_collect_items_extends(s, files.last().items, files.last().path);
            let s2 = collect_items(s, files.last().items, files.last().path).1;
            let more2 = choose|more2: Seq<SignatureView>| s2 == s + more2;
            assert(s2 =~= sigs + (more + more2));
        }
    }
}

/// After collecting items without error, each of their functions is known.
pub proof fn lemma_collect_items_known(sigs: Seq<SignatureView>, items: Seq<FileItemView>, path: Seq<char>, j: int)
    requires
        collect_items(sigs, items, path).0 is Ok,
        0 <= j < items.len(),
        items[j] is Function,
    ensures
        find_signature(collect_items(sigs, items, path).1, items[j]->Function_0.name) is Some,
    decreases items.len(),
{
    let (r, s) = collect_items(sigs, items.drop_last(), path);
    let name = items[j]->Function_0.name;
    if j < items.len() - 1 {
        assert(items.drop_last()[j] == items[j]);
        lemma_collect_items_known(sigs, items.drop_last(), path, j);
        if let FileItemView::Function(f) = items.last() {
            lemma_find_signature_extend(s, seq![signature_of(f)], name);
            assert(s + seq![signature_of(f)] =~= s.push(signature_of(f)));
        }
    } else {
        lemma_find_signature_push(s, signature_of(items[j]->Function_0));
    }
}

/// After collecting from files without error, each of their functions is
/// known.
pub proof fn lemma_collect_files_known(sigs: Seq<SignatureView>, files: Seq<SourceFileView>, i: int, j: int)
    requires
        collect_files(sigs, files).0 is Ok,
        0 <= i < files.len(),
        0 <= j < files[i].items.len(),
        files[i].items[j] is Function,
    ensures
        find_signature(collect_files(sigs, files).1, files[i].items[j]->Function_0.name) is Some,
    decreases files.len(),
{
    let (r, s) = collect_files(sigs, files.drop_last());
    let name = files[i].items[j]->Function_0.name;
    if i < files.len() - 1 {
        assert(files.drop_last()[i] == files[i]);
        lemma_collect_files_known(sigs, files.drop_last(), i, j);
        lemma_collect_items_extends(s, files.last().items, files.last().path);
        let more = choose|more: Seq<SignatureView>| collect_items(s, files.last().items, files.last().path).1 == s + more;
        lemma_find_signature_extend(s, more, name);
    } else {
        lemma_collect_items_known(s, files.last().items, files.last().path, j);
    }
}

/// Collecting items whose function at `j` has a name already known fails.
pub proof fn lemma_collect_items_known_refused(sigs: Seq<SignatureView>, items: Seq<FileItemView>, path: Seq<char>, j: int)
    requires
        0 <= j < items.len(),
        items[j] is Function,
        find_signature(sigs, items[j]->Function_0.name) is Some,
    ensures
        collect_items(sigs, items, path).0 is Err,
{
    let pre = items.subrange(0, j);
    assert(items.subrange(0, j + 1).drop_last() =~= pre);
    assert(items.subrange(0, j + 1).last() == items[j]);
    let (r, s) = collect_items(sigs, pre, path);
    if r is Ok {
        lemma_collect_items_extends(sigs, pre, path);
        let more = choose|more: Seq<SignatureView>| s == sigs + more;
        lemma_find_signature_extend(sigs, more, items[j]->Function_0.name);
    } else {
        assert(pre.subrange(0, j) =~= pre);
        assert(items.subrange(0, j + 1).drop_last().subrange(0, j) =~= pre);
        lemma_collect_items_prefix_error(sigs, items.subrange(0, j + 1), path, j);
    }
    lemma_collect_items_prefix_error(sigs, items, path, j + 1);
}

/// A function declared twice is refused: where two function items of the
/// program, in the same file or in two files, bear the same name, the
/// analysis gives an error.
pub proof fn lemma_duplicate_function_refused(
    sigs: Seq<SignatureView>,
    p: ProgramView,
    fa: int,
    ia: int,
    fb: int,
    ib: int,
)
    requires
        0 <= fa < p.files.len(),
        0 <= fb < p.files.len(),
        0 <= ia < p.files[fa].items.len(),
        0 <= ib < p.files[fb].items.len(),
        fa < fb || (fa == fb && ia < ib),
        p.files[fa].items[ia] is Function,
        p.files[fb].items[ib] is Function,
        p.files[fa].items[ia]->Function_0.name == p.files[fb].items[ib]->Function_0.name,
    ensures
        analysis(sigs, p).0 is Err,
{
    let files = p.files;
    let name = files[fb].items[ib]->Function_0.name;
    let before = files.subrange(0, fb);
    let upto = files.subrange(0, fb + 1);
    assert(upto.drop_last() =~= before);
    assert(upto.last() == files[fb]);
    let (r, s) = collect_files(sigs, before);
    if r is Ok {
        if fa < fb {
            assert(before[fa] == files[fa]);
            lemma_collect_files_known(sigs, before, fa, ia);
            lemma_collect_items_known_refused(s, files[fb].items, files[fb].path, ib);
        } else {
            let items = files[fb].items;
            let pre = items.subrange(0, ib);
            let (r2, s2) = collect_items(s, pre, files[fb].path);
            if r2 is Ok {
                assert(pre[ia] == items[ia]);
                lemma_collect_items_known(s, pre, files[fb].path, ia);
                let rest = items.subrange(ib, items.len() as int);
                assert(pre + rest =~= items);
                lemma_collect_items_split(s, pre, rest, files[fb].path);
                lemma_collect_items_known_refused(s2, rest, files[fb].path, 0);
            } else {
                assert(items.subrange(0, ib) =~= pre);
                lemma_collect_items_prefix_error(s, items, files[fb].path, ib);
            }
        }
    } else {
        assert(upto.subrange(0, fb) =~= before);
        lemma_collect_files_prefix_error(sigs, upto, fb);
    }
    lemma_collect_files_prefix_error(sigs, files, fb + 1);
}

/// Collecting two runs of items one after the other is collecting them
/// together.
pub proof fn lemma_collect_items_split(sigs: Seq<SignatureView>, a: Seq<FileItemView>, b: Seq<FileItemView>, path: Seq<char>)
    requires
        collect_items(sigs, a, path).0 is Ok,
    ensures
        collect_items(sigs, a + b, path) == collect_items(collect_items(sigs, a, path).1, b, path),
    decreases b.len(),
{
    if b.len() == 0 {
        assert(a + b =~= a);
    } else {
        assert((a + b).drop_last() =~= a + b.drop_last());
        assert((a + b).last() == b.last());
        lemma_collect_items_split(sigs, a, b.drop_last(), path);
    }
}

// ---------------------------------------------------------------------------
// The analyzer.
/// What the analysis keeps of a function.
struct Signature {
    name: String,
    parameters: Vec<Argument>,
    return_type: Type,
}

impl View for Signature {
    type V = SignatureView;

    closed spec fn view(&self) -> SignatureView {
        SignatureView {
            name: self.name@,
            parameters: self.parameters@.map_values(|a: Argument| a@),
            return_type: self.return_type,
        }
    }
}

/// A copy of a parameter.
fn copy_argument(a: &Argument) -> (r: Argument)
    ensures
        r@ == a@,
{
    Argument { name: a.name.clone(), arg_type: a.arg_type, span: a.span }
}

/// The signature of a function.
fn signature(f: &Function) -> (s: Signature)
    ensures
        s@ == signature_of(f@),
{
    let mut parameters: Vec<Argument> = Vec::new();
    let mut i: usize = 0;
    while i < f.parameters.len()
        invariant
            i <= f.parameters@.len(),
            parameters@.map_values(|a: Argument| a@) == f.parameters@.map_values(|a: Argument| a@).subrange(0, i as int),
        decreases f.parameters@.len() - i,
    {
        let ghost before = parameters@;
        parameters.push(copy_argument(&f.parameters[i]));
        assert(parameters@.map_values(|a: Argument| a@) =~= before.map_values(|a: Argument| a@).push(f.parameters@[i as int]@));
        assert(parameters@.map_values(|a: Argument| a@) =~= f.parameters@.map_values(|a: Argument| a@).subrange(0, i + 1));
        i = i + 1;
    }
    assert(f.parameters@.map_values(|a: Argument| a@).subrange(0, i as int) =~= f.parameters@.map_values(|a: Argument| a@));
    Signature { name: f.name.clone(), parameters, return_type: f.return_type }
}

/// The view of the variables in scope.
pub open spec fn bindings_view(vars: Seq<(String, Type)>) -> Seq<(Seq<char>, Type)> {
    vars.map_values(|b: (String, Type)| (b.0@, b.1))
}

/// The type bound to `name` in scope, if any.
fn find_variable(vars: &Vec<(String, Type)>, name: &String) -> (r: Option<Type>)
    ensures
        ({
            let scope = scope_of(bindings_view(vars@));
            r == if scope.contains_key(name@) {
                Some(scope[name@])
            } else {
                None::<Type>
            }
        }),
{
    let ghost b = bindings_view(vars@);
    let mut i: usize = vars.len();
    assert(b.subrange(0, i as int) =~= b);
    while i > 0
        invariant
            i <= vars@.len(),
            b == bindings_view(vars@),
            scope_of(b).contains_key(name@) == scope_of(b.subrange(0, i as int)).contains_key(name@),
            scope_of(b).contains_key(name@) ==> scope_of(b)[name@] == scope_of(b.subrange(0, i as int))[name@],
        decreases i,
    {
        let ghost sub = b.subrange(0, i as int);
        assert(sub.drop_last() =~= b.subrange(0, i - 1));
        if vars[i - 1].0 == *name {
            return Some(vars[i - 1].1);
        }
        i = i - 1;
    }
    None
}

/// The text of a type as its debug form writes it.
fn type_text_of(t: Type) -> (s: &'static str)
    ensures
        s@ == type_text(t),
{
    match t {
        Type::Int => "Int",
        Type::Float => "Float",
        Type::Text => "Text",
        Type::Void => "Void",
    }
}

/// Checks a program: each function declared once, each function body
/// well typed.
pub struct SemanticAnalyzer {
    functions: Vec<Signature>,
}

impl View for SemanticAnalyzer {
    type V = Seq<SignatureView>;

    closed spec fn view(&self) -> Seq<SignatureView> {
        self.functions@.map_values(|s: Signature| s@)
    }
}

impl SemanticAnalyzer {
    /// No function is known twice.
    pub open spec fn wf(&self) -> bool {
        distinct_names(self@)
    }

    /// An analyzer that knows no function.
    pub fn new() -> (a: Self)
        ensures
            a@ == Seq::<SignatureView>::empty(),
            a.wf(),
    {
        let a = Self { functions: Vec::new() };
        assert(a@ =~= Seq::<SignatureView>::empty());
        a
    }

    /// Where the function of that name is known.
    fn find_function(&self, name: &String) -> (r: Option<usize>)
        ensures
            match r {
                Some(i) => i < self@.len() && find_signature(self@, name@) == Some(self@[i as int]),
                None => find_signature(self@, name@) is None,
            },
    {
        let mut i: usize = 0;
        assert(self@.skip(0) =~= self@);
        while i < self.functions.len()
            invariant
                i <= self@.len(),
                self@.len() == self.functions@.len(),
                find_signature(self@, name@) == find_signature(self@.skip(i as int), name@),
            decreases self@.len() - i,
        {
            assert(self@.skip(i as int)[0] == self@[i as int]);
            if self.functions[i].name == *name {
                return Some(i);
            }
            assert(self@.skip(i as int).drop_first() =~= self@.skip(i + 1));
            i = i + 1;
        }
        None
    }

    fn resolve_expression_type(
        &self,
        expression: &Expression,
        file: &SourceFile,
        variables: &Vec<(String, Type)>,
    ) -> (r: Result<Type, CompilerError>)
        ensures
            match expr_type(self@, scope_of(bindings_view(variables@)), expression@, file.path@) {
                Ok(t) => r == Ok::<Type, CompilerError>(t),
                Err(e) => r is Err && r->Err_0@ == e,
            },
        decreases expression,
    {
        let ghost vars = scope_of(bindings_view(variables@));
        match &expression.kind {
            ExpressionKind::Value(value) => match value {
                Value::Int(_) => Ok(Type::Int),
                Value::Float(_) => Ok(Type::Float),
                Value::String(_) => Ok(Type::Text),
            },
            ExpressionKind::Variable(name) => match find_variable(variables, name) {
                Some(t) => Ok(t),
                None => {
                    let mut message = "Variable inconnue '".to_string();
                    string_push_str(&mut message, name.as_str());
                    string_push_str(&mut message, "'");
                    Err(CompilerError { file: file.path.clone(), message, span: expression.span })
                },
            },
            ExpressionKind::FunctionCall(call) => {
                let index = match self.find_function(&call.name) {
                    Some(i) => i,
                    None => {
                        let mut message = "Fonction inconnue '".to_string();
                        string_push_str(&mut message, call.name.as_str());
                        string_push_str(&mut message, "'");
                        return Err(CompilerError { file: file.path.clone(), message, span: call.span });
                    },
                };
                let function = &self.functions[index];
                assert(function@ == self@[index as int]);
                if function.parameters.len() != call.arguments.len() {
                    let mut message = "La fonction '".to_string();
                    string_push_str(&mut message, call.name.as_str());
                    string_push_str(&mut message, "' attend ");
                    push_decimal(&mut message, function.parameters.len());
                    string_push_str(&mut message, " arguments mais ");
                    push_decimal(&mut message, call.arguments.len());
                    string_push_str(&mut message, " reçu(s)");
                    proof {
                        lemma_exprs_view(call.arguments@);
                    }
                    return Err(CompilerError { file: file.path.clone(), message, span: call.span });
                }
                let ghost args = exprs_view(call.arguments@);
                proof {
                    lemma_exprs_view(call.arguments@);
                }
                let ghost params = function@.parameters;
                let mut i: usize = 0;
                #[verifier::loop_isolation(false)]
                while i < call.arguments.len()
                    invariant
                        i <= call.arguments@.len(),
                        call.arguments@.len() == function.parameters@.len(),
                        args.len() == call.arguments@.len(),
                        params.len() == call.arguments@.len(),
                        arguments_check(self@, vars, args.subrange(0, i as int), params.subrange(0, i as int), file.path@) is Ok,
                    decreases call.arguments@.len() - i,
                {
                    let arg = &call.arguments[i];
                    let arg_type = self.resolve_expression_type(arg, file, variables);
                    proof {
                        assert(args.subrange(0, i + 1).drop_last() =~= args.subrange(0, i as int));
                        assert(params.subrange(0, i + 1).drop_last() =~= params.subrange(0, i as int));
                        assert(args.subrange(0, i + 1).last() == arg@);
                        assert(params.subrange(0, i + 1).last() == function.parameters@[i as int]@);
                    }
                    let arg_type = match arg_type {
                        Ok(t) => t,
                        Err(e) => {
                            proof {
                                lemma_arguments_prefix_error(self@, vars, args, params, file.path@, i + 1);
                            }
                            return Err(e);
                        },
                    };
                    if arg_type != function.parameters[i].arg_type {
                        let mut message = "Argument '".to_string();
                        string_push_str(&mut message, function.parameters[i].name.as_str());
                        string_push_str(&mut message, "' invalide");
                        proof {
                            lemma_arguments_prefix_error(self@, vars, args, params, file.path@, i + 1);
                        }
                        return Err(CompilerError { file: file.path.clone(), message, span: arg.span });
                    }
                    i = i + 1;
                }
                assert(args.subrange(0, i as int) =~= args);
                assert(params.subrange(0, i as int) =~= params);
                Ok(function.return_type)
            },
            ExpressionKind::Operation(op) => {
                let left = self.resolve_expression_type(&op.left, file, variables)?;
                let right = self.resolve_expression_type(&op.right, file, variables)?;
                if left != right {
                    return Err(
                        CompilerError {
                            file: file.path.clone(),
                            message: "Types incompatibles dans l'opération".to_string(),
                            span: op.span,
                        },
                    );
                }
                Ok(left)
            },
        }
    }

    fn analyze_statement(
        &self,
        statement: &Statement,
        file: &SourceFile,
        variables: &mut Vec<(String, Type)>,
    ) -> (r: Result<(), CompilerError>)
        ensures
            match statement_check(self@, scope_of(bindings_view(old(variables)@)), statement@, file.path@) {
                Ok(m) => r is Ok && scope_of(bindings_view(final(variables)@)) == m,
                Err(e) => r is Err && r->Err_0@ == e && final(variables)@ == old(variables)@,
            },
    {
        match statement {
            Statement::VariableDeclaration(var) => {
                if find_variable(variables, &var.name).is_some() {
                    let mut message = "Variable '".to_string();
                    string_push_str(&mut message, var.name.as_str());
                    string_push_str(&mut message, "' déjà déclarée");
                    return Err(CompilerError { file: file.path.clone(), message, span: var.span });
                }
                if let Some(expr) = &var.value {
                    let expr_type = self.resolve_expression_type(expr, file, variables)?;
                    if expr_type != var.var_type {
                        let mut message = "Type attendu ".to_string();
                        string_push_str(&mut message, type_text_of(var.var_type));
                        string_push_str(&mut message, " mais ");
                        string_push_str(&mut message, type_text_of(expr_type));
                        string_push_str(&mut message, " reçu");
                        return Err(CompilerError { file: file.path.clone(), message, span: var.span });
                    }
                }
                let ghost before = bindings_view(variables@);
                variables.push((var.name.clone(), var.var_type));
                assert(bindings_view(variables@) =~= before.push((var.name@, var.var_type)));
                assert(bindings_view(variables@).drop_last() =~= before);
            },
            Statement::Return(ret) => {
                if let Some(expr) = &ret.value {
                    self.resolve_expression_type(expr, file, variables)?;
                }
            },
            Statement::Expression(expr) => {
                self.resolve_expression_type(expr, file, variables)?;
            },
        }
        Ok(())
    }

    fn analyze_function(&self, function: &Function, file: &SourceFile) -> (r: Result<(), CompilerError>)
        ensures
            match function_check(self@, function@, file.path@) {
                Ok(_) => r is Ok,
                Err(e) => r is Err && r->Err_0@ == e,
            },
    {
        let ghost params = function@.parameters;
        let ghost body = function@.body;
        let mut variables: Vec<(String, Type)> = Vec::new();
        let mut i: usize = 0;
        while i < function.parameters.len()
            invariant
                i <= function.parameters@.len(),
                params == function.parameters@.map_values(|a: Argument| a@),
                scope_of(bindings_view(variables@)) == parameters_scope(params.subrange(0, i as int)),
            decreases function.parameters@.len() - i,
        {
            let param = &function.parameters[i];
            let ghost before = bindings_view(variables@);
            variables.push((param.name.clone(), param.arg_type));
            assert(bindings_view(variables@) =~= before.push((param.name@, param.arg_type)));
            assert(bindings_view(variables@).drop_last() =~= before);
            assert(params.subrange(0, i + 1).drop_last() =~= params.subrange(0, i as int));
            i = i + 1;
        }
        assert(params.subrange(0, i as int) =~= params);
        let ghost scope0 = parameters_scope(params);
        let mut j: usize = 0;
        assert(body.subrange(0, 0) =~= Seq::<StatementView>::empty());
        while j < function.body.len()
            invariant
                j <= function.body@.len(),
                body == function.body@.map_values(|st: Statement| st@),
                body == function@.body,
                scope0 == parameters_scope(function@.parameters),
                statements_check(self@, scope0, body.subrange(0, j as int), file.path@) == Ok::<
                    Map<Seq<char>, Type>,
                    ErrorView,
                >(scope_of(bindings_view(variables@))),
            decreases function.body@.len() - j,
        {
            assert(body.subrange(0, j + 1).drop_last() =~= body.subrange(0, j as int));
            let result = self.analyze_statement(&function.body[j], file, &mut variables);
            match result {
                Ok(_) => {},
                Err(e) => {
                    proof {
                        lemma_statements_prefix_error(self@, scope0, body, file.path@, j + 1);
                    }
                    return Err(e);
                },
            }
            j = j + 1;
        }
        assert(body.subrange(0, j as int) =~= body);
        Ok(())
    }

    fn analyze_functions(&self, program: &Program) -> (r: Result<(), CompilerError>)
        ensures
            match files_check(self@, program@.files) {
                Ok(_) => r is Ok,
                Err(e) => r is Err && r->Err_0@ == e,
            },
    {
        let ghost files = program@.files;
        let mut i: usize = 0;
        assert(files.subrange(0, 0) =~= Seq::<SourceFileView>::empty());
        while i < program.files.len()
            invariant
                i <= program.files@.len(),
                files == program.files@.map_values(|f: SourceFile| f@),
                files_check(self@, files.subrange(0, i as int)) is Ok,
            decreases program.files@.len() - i,
        {
            let file = &program.files[i];
            let ghost items = file@.items;
            assert(files.subrange(0, i + 1).drop_last() =~= files.subrange(0, i as int));
            assert(files.subrange(0, i + 1).last() == file@);
            let mut j: usize = 0;
            assert(items.subrange(0, 0) =~= Seq::<FileItemView>::empty());
            #[verifier::loop_isolation(false)]
            while j < file.items.len()
                invariant
                    j <= file.items@.len(),
                    items == file.items@.map_values(|it: FileItem| it@),
                    items_check(self@, items.subrange(0, j as int), file.path@) is Ok,
                decreases file.items@.len() - j,
            {
                assert(items.subrange(0, j + 1).drop_last() =~= items.subrange(0, j as int));
                if let FileItem::Function(func) = &file.items[j] {
                    match self.analyze_function(func, file) {
                        Ok(_) => {},
                        Err(e) => {
                            proof {
                                lemma_items_prefix_error(self@, items, file.path@, j + 1);
                                lemma_files_prefix_error(self@, files, i + 1);
                            }
                            return Err(e);
                        },
                    }
                }
                j = j + 1;
            }
            assert(items.subrange(0, j as int) =~= items);
            i = i + 1;
        }
        assert(files.subrange(0, i as int) =~= files);
        Ok(())
    }

    fn collect_functions(&mut self, program: &Program) -> (r: Result<(), CompilerError>)
        requires
            old(self).wf(),
        ensures
            final(self).wf(),
            ({
                let (s, sigs) = collect_files(old(self)@, program@.files);
                &&& final(self)@ == sigs
                &&& match s {
                    Ok(_) => r is Ok,
                    Err(e) => r is Err && r->Err_0@ == e,
                }
            }),
    {
        let ghost start = self@;
        let ghost files = program@.files;
        let mut i: usize = 0;
        assert(files.subrange(0, 0) =~= Seq::<SourceFileView>::empty());
        while i < program.files.len()
            invariant
                i <= program.files@.len(),
                files == program.files@.map_values(|f: SourceFile| f@),
                self.wf(),
                start == old(self)@,
                collect_files(start, files.subrange(0, i as int)) == (Ok::<(), ErrorView>(()), self@),
            decreases program.files@.len() - i,
        {
            let file = &program.files[i];
            let ghost items = file@.items;
            let ghost s0 = self@;
            assert(files.subrange(0, i + 1).drop_last() =~= files.subrange(0, i as int));
            assert(files.subrange(0, i + 1).last() == file@);
            let mut j: usize = 0;
            assert(items.subrange(0, 0) =~= Seq::<FileItemView>::empty());
            #[verifier::loop_isolation(false)]
            while j < file.items.len()
                invariant
                    j <= file.items@.len(),
                    items == file.items@.map_values(|it: FileItem| it@),
                    self.wf(),
                    collect_items(s0, items.subrange(0, j as int), file.path@) == (Ok::<(), ErrorView>(()), self@),
                decreases file.items@.len() - j,
            {
                assert(items.subrange(0, j + 1).drop_last() =~= items.subrange(0, j as int));
                assert(items.subrange(0, j + 1).last() == file.items@[j as int]@);
                if let FileItem::Function(func) = &file.items[j] {
                    proof {
                        lemma_find_signature(self@, func.name@);
                    }
                    if self.find_function(&func.name).is_some() {
                        let mut message = "Fonction '".to_string();
                        string_push_str(&mut message, func.name.as_str());
                        string_push_str(&mut message, "' déjà déclarée");
                        proof {
                            lemma_collect_items_prefix_error(s0, items, file.path@, j + 1);
                            lemma_collect_files_prefix_error(start, files, i + 1);
                        }
                        return Err(CompilerError { file: file.path.clone(), message, span: func.span });
                    }
                    let ghost before = self@;
                    self.functions.push(signature(func));
                    assert(self@ =~= before.push(signature_of(func@)));
                }
                j = j + 1;
            }
            assert(items.subrange(0, j as int) =~= items);
            i = i + 1;
        }
        assert(files.subrange(0, i as int) =~= files);
        Ok(())
    }

    /// Collects the functions of every file, then checks each function:
    /// a function declared twice, an undeclared or redeclared variable, a
    /// call of an unknown function or with the wrong number or types of
    /// arguments, and an operation on two different types are errors. The
    /// first error met is given back; the functions collected up to then are
    /// kept.
    pub fn analyze(&mut self, program: &Program) -> (r: Result<(), CompilerError>)
        requires
            old(self).wf(),
        ensures
            final(self).wf(),
            ({
                let (s, sigs) = analysis(old(self)@, program@);
                &&& final(self)@ == sigs
                &&& match s {
                    Ok(_) => r is Ok,
                    Err(e) => r is Err && r->Err_0@ == e,
                }
            }),
    {
        self.collect_functions(program)?;
        self.analyze_functions(program)?;
        Ok(())
    }
}

} // verus!
