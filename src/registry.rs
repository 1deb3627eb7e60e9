//! The process registry: turning process declarations into validated
//! process records.
//!
//! Field rules: `path` is required and must be non-empty text; `args` is
//! optional text, split on single spaces (see the args module for the
//! limits of that); `cwd` is optional text; `restart_delay` is an optional
//! non-negative integer of milliseconds, zero when absent; `stdout` and
//! `stderr` are optional text, where the null device's path means "discard"
//! and any other text is a file to append to, "discard" when absent. A
//! process name must be non-empty and unique.
use vstd::prelude::*;
use crate::args::{split_args, split_spec};
use crate::process::{
    ConfigError, DeclModel, ErrorModel, Field, FieldModel, FieldValue, Process, ProcessDecl,
    ProcessModel, StreamTarget, TargetModel, decls_view, fields_view, processes_view,
};

verus! {

/// The path that stands for "discard this stream" in a configuration.
pub const DISCARD_PATH: &'static str = "/dev/null";

/// The value of the first field named `key`, if any.
pub open spec fn lookup(f: Seq<(Seq<char>, FieldModel)>, key: Seq<char>) -> Option<FieldModel>
    decreases f.len(),
{
    if f.len() == 0 {
        None
    } else if f[0].0 == key {
        Some(f[0].1)
    } else {
        lookup(f.drop_first(), key)
    }
}

/// The error for a required field that `d` lacks.
pub open spec fn missing(d: DeclModel, field: Field) -> ErrorModel {
    ErrorModel::MissingRequiredField { process: d.name, field }
}

/// The error for a field of `d` with an invalid value.
pub open spec fn malformed(d: DeclModel, field: Field) -> ErrorModel {
    ErrorModel::MalformedField { process: d.name, field }
}

/// The executable path of `d`: required, non-empty text.
pub open spec fn path_value(d: DeclModel) -> Result<Seq<char>, ErrorModel> {
    match lookup(d.fields, "path"@) {
        None => Err(missing(d, Field::Path)),
        Some(FieldModel::Text(p)) => if p.len() > 0 {
            Ok(p)
        } else {
            Err(malformed(d, Field::Path))
        },
        Some(_) => Err(malformed(d, Field::Path)),
    }
}

/// The arguments of `d`: none when absent, else its text split on spaces.
pub open spec fn args_value(d: DeclModel) -> Result<Seq<Seq<char>>, ErrorModel> {
    match lookup(d.fields, "args"@) {
        None => Ok(Seq::empty()),
        Some(FieldModel::Text(s)) => Ok(split_spec(s)),
        Some(_) => Err(malformed(d, Field::Args)),
    }
}

/// The working directory of `d`, if it sets one.
pub open spec fn cwd_value(d: DeclModel) -> Result<Option<Seq<char>>, ErrorModel> {
    match lookup(d.fields, "cwd"@) {
        None => Ok(None),
        Some(FieldModel::Text(s)) => Ok(Some(s)),
        Some(_) => Err(malformed(d, Field::Cwd)),
    }
}

/// The restart delay of `d` in milliseconds: zero when absent, else a non-negative integer.
pub open spec fn delay_value(d: DeclModel) -> Result<u64, ErrorModel> {
    match lookup(d.fields, "restart_delay"@) {
        None => Ok(0),
        Some(FieldModel::Integer(i)) => if i >= 0 {
            Ok(i as u64)
        } else {
            Err(malformed(d, Field::RestartDelay))
        },
        Some(_) => Err(malformed(d, Field::RestartDelay)),
    }
}

/// Where the stream named `key` of `d` goes: discarded when absent or the null device, else appended to the named file.
pub open spec fn target_value(d: DeclModel, key: Seq<char>, field: Field) -> Result<
    TargetModel,
    ErrorModel,
> {
    match lookup(d.fields, key) {
        None => Ok(TargetModel::Discard),
        Some(FieldModel::Text(s)) => if s == DISCARD_PATH@ {
            Ok(TargetModel::Discard)
        } else {
            Ok(TargetModel::Append(s))
        },
        Some(_) => Err(malformed(d, field)),
    }
}

/// The record that a declaration gives, or the first thing wrong with it:
/// a missing `path` first, then an empty name, then the fields in the order
/// path, args, cwd, restart_delay, stdout, stderr.
pub open spec fn decl_outcome(d: DeclModel) -> Result<ProcessModel, ErrorModel> {
    match path_value(d) {
        Err(e) => if lookup(d.fields, "path"@) is None {
            Err(e)
        } else if d.name.len() == 0 {
            Err(malformed(d, Field::Name))
        } else {
            Err(e)
        },
        Ok(path) => if d.name.len() == 0 {
            Err(malformed(d, Field::Name))
        } else {
            match (args_value(d), cwd_value(d), delay_value(d)) {
                (Err(e), _, _) => Err(e),
                (_, Err(e), _) => Err(e),
                (_, _, Err(e)) => Err(e),
                (Ok(args), Ok(cwd), Ok(delay)) => match (
                    target_value(d, "stdout"@, Field::Stdout),
                    target_value(d, "stderr"@, Field::Stderr),
                ) {
                    (Err(e), _) => Err(e),
                    (_, Err(e)) => Err(e),
                    (Ok(out), Ok(err)) => Ok(
                        ProcessModel {
                            name: d.name,
                            path,
                            args,
                            restart_delay: delay,
                            cwd,
                            stdout_target: out,
                            stderr_target: err,
                        },
                    ),
                },
            }
        },
    }
}

/// The view of the result of validating one declaration.
pub open spec fn outcome_view(r: Result<Process, ConfigError>) -> Result<ProcessModel, ErrorModel> {
    match r {
        Ok(p) => Ok(p@),
        Err(e) => Err(e@),
    }
}

/// Whether two texts are equal.
pub fn text_eq(a: &str, b: &str) -> (r: bool)
    ensures
        r == (a@ == b@),
{
    let n = a.unicode_len();
    let m = b.unicode_len();
    if n != m {
        return false;
    }
    let mut i: usize = 0;
    while i < n
        invariant
            n == a@.len(),
            m == b@.len(),
            n == m,
            i <= n,
            forall|k: int| 0 <= k < i ==> a@[k] == b@[k],
        decreases n - i,
    {
        if a.get_char(i) != b.get_char(i) {
            return false;
        }
        i = i + 1;
    }
    assert(a@ =~= b@);
    true
}

/// The value of the first field named `key`, if any.
pub fn lookup_field<'a>(fields: &'a Vec<(String, FieldValue)>, key: &str) -> (r: Option<
    &'a FieldValue,
>)
    ensures
        match r {
            None => lookup(fields_view(fields@), key@) is None,
            Some(v) => lookup(fields_view(fields@), key@) == Some(v@),
        },
{
    let ghost f = fields_view(fields@);
    let mut i: usize = 0;
    assert(f.subrange(0, f.len() as int) =~= f);
    while i < fields.len()
        invariant
            f == fields_view(fields@),
            i <= fields.len(),
            lookup(f, key@) == lookup(f.subrange(i as int, f.len() as int), key@),
        decreases fields.len() - i,
    {
        let ghost rest = f.subrange(i as int, f.len() as int);
        assert(rest[0] == f[i as int]);
        if text_eq(fields[i].0.as_str(), key) {
            return Some(&fields[i].1);
        }
        assert(rest.drop_first() =~= f.subrange(i + 1, f.len() as int));
        i = i + 1;
    }
    None
}

fn path_of(d: &ProcessDecl) -> (r: Result<String, ConfigError>)
    ensures
        match r {
            Ok(p) => path_value(d@) == Ok::<_, ErrorModel>(p@),
            Err(e) => path_value(d@) == Err::<Seq<char>, _>(e@),
        },
{
    match lookup_field(&d.fields, "path") {
        None => Err(ConfigError::MissingRequiredField { process: d.name.clone(), field: Field::Path }),
        Some(FieldValue::Text(p)) => if p.unicode_len() > 0 {
            Ok(p.clone())
        } else {
            Err(ConfigError::MalformedField { process: d.name.clone(), field: Field::Path })
        },
        Some(_) => Err(ConfigError::MalformedField { process: d.name.clone(), field: Field::Path }),
    }
}

fn args_of(d: &ProcessDecl) -> (r: Result<Vec<String>, ConfigError>)
    ensures
        match r {
            Ok(a) => args_value(d@) == Ok::<_, ErrorModel>(crate::args::strings_view(a@)),
            Err(e) => args_value(d@) == Err::<Seq<Seq<char>>, _>(e@),
        },
{
    match lookup_field(&d.fields, "args") {
        None => {
            let v: Vec<String> = Vec::new();
            assert(crate::args::strings_view(v@) =~= Seq::empty());
            Ok(v)
        },
        Some(FieldValue::Text(s)) => Ok(split_args(s.as_str())),
        Some(_) => Err(ConfigError::MalformedField { process: d.name.clone(), field: Field::Args }),
    }
}

fn cwd_of(d: &ProcessDecl) -> (r: Result<Option<String>, ConfigError>)
    ensures
        match r {
            Ok(c) => cwd_value(d@) == Ok::<_, ErrorModel>(crate::process::opt_view(c)),
            Err(e) => cwd_value(d@) == Err::<Option<Seq<char>>, _>(e@),
        },
{
    match lookup_field(&d.fields, "cwd") {
        None => Ok(None),
        Some(FieldValue::Text(s)) => Ok(Some(s.clone())),
        Some(_) => Err(ConfigError::MalformedField { process: d.name.clone(), field: Field::Cwd }),
    }
}

fn delay_of(d: &ProcessDecl) -> (r: Result<u64, ConfigError>)
    ensures
        match r {
            Ok(v) => delay_value(d@) == Ok::<_, ErrorModel>(v),
            Err(e) => delay_value(d@) == Err::<u64, _>(e@),
        },
{
    match lookup_field(&d.fields, "restart_delay") {
        None => Ok(0),
        Some(FieldValue::Integer(i)) => if *i >= 0 {
            Ok(*i as u64)
        } else {
            Err(ConfigError::MalformedField { process: d.name.clone(), field: Field::RestartDelay })
        },
        Some(_) => Err(
            ConfigError::MalformedField { process: d.name.clone(), field: Field::RestartDelay },
        ),
    }
}

/// The stream target that a configured text names.
pub fn target_of_text(s: &str) -> (r: StreamTarget)
    ensures
        r@ == (if s@ == DISCARD_PATH@ {
            TargetModel::Discard
        } else {
            TargetModel::Append(s@)
        }),
{
    if text_eq(s, DISCARD_PATH) {
        StreamTarget::Discard
    } else {
        StreamTarget::Append(String::from_str(s))
    }
}

fn target_of(d: &ProcessDecl, key: &str, field: Field) -> (r: Result<StreamTarget, ConfigError>)
    ensures
        match r {
            Ok(t) => target_value(d@, key@, field) == Ok::<_, ErrorModel>(t@),
            Err(e) => target_value(d@, key@, field) == Err::<TargetModel, _>(e@),
        },
{
    match lookup_field(&d.fields, key) {
        None => Ok(StreamTarget::Discard),
        Some(FieldValue::Text(s)) => Ok(target_of_text(s.as_str())),
        Some(_) => Err(ConfigError::MalformedField { process: d.name.clone(), field }),
    }
}

/// Validates one declaration into a process record.
pub fn process_from_decl(d: &ProcessDecl) -> (r: Result<Process, ConfigError>)
    ensures
        outcome_view(r) == decl_outcome(d@),
{
    let path = match path_of(d) {
        Ok(p) => p,
        Err(e) => {
            if lookup_field(&d.fields, "path").is_some() && d.name.unicode_len() == 0 {
                return Err(ConfigError::MalformedField { process: d.name.clone(), field: Field::Name });
            }
            return Err(e);
        },
    };
    if d.name.unicode_len() == 0 {
        return Err(ConfigError::MalformedField { process: d.name.clone(), field: Field::Name });
    }
    let args = match args_of(d) {
        Ok(a) => a,
        Err(e) => return Err(e),
    };
    let cwd = match cwd_of(d) {
        Ok(c) => c,
        Err(e) => return Err(e),
    };
    let delay = match delay_of(d) {
        Ok(v) => v,
        Err(e) => return Err(e),
    };
    let out = match target_of(d, "stdout", Field::Stdout) {
        Ok(t) => t,
        Err(e) => return Err(e),
    };
    let err = match target_of(d, "stderr", Field::Stderr) {
        Ok(t) => t,
        Err(e) => return Err(e),
    };
    Ok(
        Process {
            name: d.name.clone(),
            path,
            args,
            restart_delay: delay,
            cwd,
            stdout_target: out,
            stderr_target: err,
        },
    )
}

/// The first declaration, in order, that lacks `path`.
pub open spec fn missing_path(ds: Seq<DeclModel>) -> Option<ErrorModel>
    decreases ds.len(),
{
    if ds.len() == 0 {
        None
    } else {
        match missing_path(ds.drop_last()) {
            Some(e) => Some(e),
            None => if lookup(ds.last().fields, "path"@) is None {
                Some(missing(ds.last(), Field::Path))
            } else {
                None
            },
        }
    }
}

/// Whether the name of the `i`th declaration is used by an earlier one.
pub open spec fn name_taken(ds: Seq<DeclModel>, i: int) -> bool {
    exists|j: int| 0 <= j < i && #[trigger] ds[j].name == ds[i].name
}

/// The first declaration, in order, whose name an earlier one already has.
pub open spec fn duplicate(ds: Seq<DeclModel>) -> Option<ErrorModel>
    decreases ds.len(),
{
    if ds.len() == 0 {
        None
    } else {
        match duplicate(ds.drop_last()) {
            Some(e) => Some(e),
            None => if name_taken(ds, ds.len() - 1) {
                Some(ErrorModel::DuplicateName { process: ds.last().name })
            } else {
                None
            },
        }
    }
}

/// The records of all declarations in order, or the first error among them.
pub open spec fn build(ds: Seq<DeclModel>) -> Result<Seq<ProcessModel>, ErrorModel>
    decreases ds.len(),
{
    if ds.len() == 0 {
        Ok(Seq::empty())
    } else {
        match build(ds.drop_last()) {
            Err(e) => Err(e),
            Ok(ps) => match decl_outcome(ds.last()) {
                Err(e) => Err(e),
                Ok(p) => Ok(ps.push(p)),
            },
        }
    }
}

/// What the registry is for a sequence of declarations: a missing `path`
/// anywhere is reported first, then a repeated name, then the first
/// declaration that is otherwise invalid; with none, one record for each
/// declaration, in order.
pub open spec fn registry_outcome(ds: Seq<DeclModel>) -> Result<Seq<ProcessModel>, ErrorModel> {
    match missing_path(ds) {
        Some(e) => Err(e),
        None => match duplicate(ds) {
            Some(e) => Err(e),
            None => build(ds),
        },
    }
}

/// The view of the result of building a registry.
pub open spec fn registry_view(r: Result<Vec<Process>, ConfigError>) -> Result<
    Seq<ProcessModel>,
    ErrorModel,
> {
    match r {
        Ok(ps) => Ok(processes_view(ps@)),
        Err(e) => Err(e@),
    }
}

proof fn lemma_missing_prefix(ds: Seq<DeclModel>, k: int)
    requires
        0 <= k <= ds.len(),
        missing_path(ds.take(k)) is Some,
    ensures
        missing_path(ds) == missing_path(ds.take(k)),
    decreases ds.len(),
{
    if k == ds.len() {
        assert(ds.take(k) =~= ds);
    } else {
        assert(ds.drop_last().take(k) =~= ds.take(k));
        lemma_missing_prefix(ds.drop_last(), k);
    }
}

proof fn lemma_name_taken_prefix(ds: Seq<DeclModel>, k: int)
    requires
        0 < k <= ds.len(),
    ensures
        name_taken(ds.take(k), k - 1) == name_taken(ds, k - 1),
{
    let p = ds.take(k);
    if name_taken(ds, k - 1) {
        let j = choose|j: int| 0 <= j < k - 1 && #[trigger] ds[j].name == ds[k - 1].name;
        assert(p[j].name == p[k - 1].name);
    }
    if name_taken(p, k - 1) {
        let j = choose|j: int| 0 <= j < k - 1 && #[trigger] p[j].name == p[k - 1].name;
        assert(ds[j].name == ds[k - 1].name);
    }
}

proof fn lemma_duplicate_prefix(ds: Seq<DeclModel>, k: int)
    requires
        0 <= k <= ds.len(),
        duplicate(ds.take(k)) is Some,
    ensures
        duplicate(ds) == duplicate(ds.take(k)),
    decreases ds.len(),
{
    if k == ds.len() {
        assert(ds.take(k) =~= ds);
    } else {
        assert(ds.drop_last().take(k) =~= ds.take(k));
        lemma_duplicate_prefix(ds.drop_last(), k);
    }
}

proof fn lemma_build_prefix(ds: Seq<DeclModel>, k: int)
    requires
        0 <= k <= ds.len(),
        build(ds.take(k)) is Err,
    ensures
        build(ds) == build(ds.take(k)),
    decreases ds.len(),
{
    if k == ds.len() {
        assert(ds.take(k) =~= ds);
    } else {
        assert(ds.drop_last().take(k) =~= ds.take(k));
        lemma_build_prefix(ds.drop_last(), k);
    }
}

/// Builds the registry: one validated record per declaration, in order, or
/// the error that `registry_outcome` names.
pub fn build_registry(decls: &Vec<ProcessDecl>) -> (r: Result<Vec<Process>, ConfigError>)
    ensures
        registry_view(r) == registry_outcome(decls_view(decls@)),
{
    let ghost dv = decls_view(decls@);
    let n = decls.len();
    assert(dv.take(n as int) =~= dv);
    assert(dv.take(0).len() == 0);
    let mut i: usize = 0;
    while i < n
        invariant
            n == decls.len(),
            dv == decls_view(decls@),
            i <= n,
            missing_path(dv.take(i as int)) is None,
        decreases n - i,
    {
        assert(dv.take(i + 1).drop_last() =~= dv.take(i as int));
        assert(dv.take(i + 1).last() == decls@[i as int]@);
        if lookup_field(&decls[i].fields, "path").is_none() {
            let e = ConfigError::MissingRequiredField {
                process: decls[i].name.clone(),
                field: Field::Path,
            };
            proof {
                lemma_missing_prefix(dv, i + 1);
            }
            return Err(e);
        }
        i = i + 1;
    }
    i = 0;
    while i < n
        invariant
            n == decls.len(),
            dv == decls_view(decls@),
            i <= n,
            missing_path(dv) is None,
            duplicate(dv.take(i as int)) is None,
        decreases n - i,
    {
        let ghost p = dv.take(i + 1);
        assert(p.drop_last() =~= dv.take(i as int));
        assert(p.last() == decls@[i as int]@);
        let mut j: usize = 0;
        while j < i
            invariant
                n == decls.len(),
                dv == decls_view(decls@),
                j <= i < n,
                missing_path(dv) is None,
                duplicate(dv.take(i as int)) is None,
                forall|k: int| 0 <= k < j ==> dv[k].name != dv[i as int].name,
            decreases i - j,
        {
            assert(dv[j as int] == decls@[j as int]@);
            assert(dv[i as int] == decls@[i as int]@);
            if text_eq(decls[j].name.as_str(), decls[i].name.as_str()) {
                proof {
                    let p = dv.take(i + 1);
                    assert(p[j as int].name == p[i as int].name);
                    assert(name_taken(p, i as int));
                    assert(p.drop_last() =~= dv.take(i as int));
                    lemma_name_taken_prefix(dv, i + 1);
                    lemma_duplicate_prefix(dv, i + 1);
                }
                return Err(ConfigError::DuplicateName { process: decls[i].name.clone() });
            }
            j = j + 1;
        }
        proof {
            lemma_name_taken_prefix(dv, i + 1);
        }
        i = i + 1;
    }
    let mut out: Vec<Process> = Vec::new();
    i = 0;
    assert(processes_view(out@) =~= Seq::empty());
    while i < n
        invariant
            n == decls.len(),
            dv == decls_view(decls@),
            i <= n,
            missing_path(dv) is None,
            duplicate(dv) is None,
            build(dv.take(i as int)) == Ok::<_, ErrorModel>(processes_view(out@)),
        decreases n - i,
    {
        let ghost p = dv.take(i + 1);
        assert(p.drop_last() =~= dv.take(i as int));
        assert(p.last() == decls@[i as int]@);
        match process_from_decl(&decls[i]) {
            Ok(rec) => {
                let ghost before = out@;
                out.push(rec);
                assert(processes_view(out@) =~= processes_view(before).push(rec@));
            },
            Err(e) => {
                proof {
                    lemma_build_prefix(dv, i + 1);
                }
                return Err(e);
            },
        }
        i = i + 1;
    }
    Ok(out)
}

proof fn lemma_build_ok(ds: Seq<DeclModel>)
    ensures
        build(ds) is Ok <==> (forall|i: int| 0 <= i < ds.len() ==> (#[trigger] decl_outcome(ds[i])) is Ok),
        build(ds) is Ok ==> ({
            let ps = build(ds)->Ok_0;
            &&& ps.len() == ds.len()
            &&& forall|i: int| 0 <= i < ds.len() ==> decl_outcome(#[trigger] ds[i]) == Ok::<_, ErrorModel>(ps[i])
        }),
    decreases ds.len(),
{
    if ds.len() > 0 {
        let init = ds.drop_last();
        lemma_build_ok(init);
        assert(forall|i: int| 0 <= i < init.len() ==> init[i] == ds[i]);
        if !(build(ds) is Ok) && (forall|i: int| 0 <= i < ds.len() ==> (#[trigger] decl_outcome(ds[i])) is Ok) {
            assert(decl_outcome(ds[ds.len() - 1]) is Ok);
            assert(forall|i: int| 0 <= i < init.len() ==> (#[trigger] decl_outcome(init[i])) is Ok) by {
                assert forall|i: int| 0 <= i < init.len() implies (#[trigger] decl_outcome(init[i])) is Ok by {
                    assert(init[i] == ds[i]);
                }
            }
        }
        if build(ds) is Ok {
            assert forall|i: int| 0 <= i < ds.len() implies (#[trigger] decl_outcome(ds[i])) is Ok by {
                if i < init.len() {
                    assert(init[i] == ds[i]);
                }
            }
        }
    }
}

/// One record for each declaration: where the registry is built, it holds
/// exactly as many records as there are declarations, the `i`th being what
/// the `i`th declaration gives (its declared values, or the defaults); and
/// it is built whenever every declaration has `path`, the names are
/// distinct, and each declaration is valid on its own.
pub proof fn lemma_registry_one_record_each(ds: Seq<DeclModel>)
    ensures
        registry_outcome(ds) is Ok ==> ({
            let ps = registry_outcome(ds)->Ok_0;
            &&& ps.len() == ds.len()
            &&& forall|i: int| 0 <= i < ds.len() ==> decl_outcome(#[trigger] ds[i]) == Ok::<_, ErrorModel>(ps[i])
            &&& forall|i: int| 0 <= i < ds.len() ==> (#[trigger] ps[i]).name == ds[i].name
        }),
        (missing_path(ds) is None && duplicate(ds) is None && forall|i: int|
            0 <= i < ds.len() ==> (#[trigger] decl_outcome(ds[i])) is Ok) ==> registry_outcome(ds) is Ok,
{
    lemma_build_ok(ds);
    if registry_outcome(ds) is Ok {
        let ps = registry_outcome(ds)->Ok_0;
        assert forall|i: int| 0 <= i < ds.len() implies (#[trigger] ps[i]).name == ds[i].name by {
            assert(decl_outcome(ds[i]) == Ok::<_, ErrorModel>(ps[i]));
        }
    }
}

proof fn lemma_missing_path_found(ds: Seq<DeclModel>, i: int)
    requires
        0 <= i < ds.len(),
        lookup(ds[i].fields, "path"@) is None,
    ensures
        missing_path(ds) is Some,
    decreases ds.len(),
{
    if i < ds.len() - 1 {
        assert(ds.drop_last()[i] == ds[i]);
        lemma_missing_path_found(ds.drop_last(), i);
    }
}

proof fn lemma_missing_path_kind(ds: Seq<DeclModel>)
    requires
        missing_path(ds) is Some,
    ensures
        missing_path(ds)->Some_0 is MissingRequiredField,
        missing_path(ds)->Some_0->MissingRequiredField_field == Field::Path,
    decreases ds.len(),
{
    if missing_path(ds.drop_last()) is Some {
        lemma_missing_path_kind(ds.drop_last());
    }
}

/// A declaration that lacks `path` makes the whole registry fail with
/// `MissingRequiredField` for `path`, whatever other fields it or the other
/// declarations hold.
pub proof fn lemma_missing_path_fails(ds: Seq<DeclModel>, i: int)
    requires
        0 <= i < ds.len(),
        lookup(ds[i].fields, "path"@) is None,
    ensures
        registry_outcome(ds) is Err,
        registry_outcome(ds)->Err_0 is MissingRequiredField,
        registry_outcome(ds)->Err_0->MissingRequiredField_field == Field::Path,
        decl_outcome(ds[i]) == Err::<ProcessModel, _>(missing(ds[i], Field::Path)),
{
    lemma_missing_path_found(ds, i);
    lemma_missing_path_kind(ds);
}

/// The invariant of a registry: every name and path is non-empty, and no
/// two records share a name.
pub open spec fn registry_valid(ps: Seq<ProcessModel>) -> bool {
    &&& forall|i: int| 0 <= i < ps.len() ==> (#[trigger] ps[i]).name.len() > 0 && ps[i].path.len() > 0
    &&& forall|i: int, j: int| 0 <= i < j < ps.len() ==> ps[i].name != ps[j].name
}

proof fn lemma_no_duplicate(ds: Seq<DeclModel>)
    requires
        duplicate(ds) is None,
    ensures
        forall|i: int| 0 <= i < ds.len() ==> !name_taken(ds, i),
    decreases ds.len(),
{
    if ds.len() > 0 {
        let init = ds.drop_last();
        lemma_no_duplicate(init);
        assert forall|i: int| 0 <= i < ds.len() implies !name_taken(ds, i) by {
            if i < ds.len() - 1 {
                lemma_name_taken_prefix(ds, i + 1);
                lemma_name_taken_prefix(init, i + 1);
                assert(init.take(i + 1) =~= ds.take(i + 1));
            }
        }
    }
}

/// Every registry that is built satisfies the registry invariant.
pub proof fn lemma_registry_valid(ds: Seq<DeclModel>)
    ensures
        registry_outcome(ds) is Ok ==> registry_valid(registry_outcome(ds)->Ok_0),
{
    if registry_outcome(ds) is Ok {
        let ps = registry_outcome(ds)->Ok_0;
        lemma_registry_one_record_each(ds);
        lemma_no_duplicate(ds);
        assert forall|i: int| 0 <= i < ps.len() implies (#[trigger] ps[i]).name.len() > 0
            && ps[i].path.len() > 0 by {
            assert(decl_outcome(ds[i]) == Ok::<_, ErrorModel>(ps[i]));
        }
        assert forall|i: int, j: int| 0 <= i < j < ps.len() implies ps[i].name != ps[j].name by {
            assert(!name_taken(ds, j));
            assert(ps[i].name == ds[i].name);
            assert(ps[j].name == ds[j].name);
        }
    }
}

} // verus!
