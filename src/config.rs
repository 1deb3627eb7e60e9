//! Reading process declarations out of a TOML configuration document.
//!
//! The document has one top-level table named `process`; each key under it
//! names one managed process and maps to that process's table of fields.
//! Parsing the TOML syntax itself is the toml crate's work; a parsed
//! document is seen here through `TomlModel`, which keeps strings, integers
//! and tables and folds every other kind of value into `Other`. Tables are
//! keyed maps, so the declarations come in an order this module leaves open.
use vstd::prelude::*;
use crate::process::{
    ConfigError, DeclModel, ErrorModel, FieldModel, FieldValue, ProcessDecl, Process, decls_view,
    fields_view, processes_view,
};
use crate::registry::{
    build_registry, decl_outcome, lemma_registry_one_record_each, lemma_registry_valid, registry_valid, registry_outcome, registry_view, text_eq,
};

verus! {

/// toml::Value, a parsed TOML value.
#[verifier::external_type_specification]
#[verifier::external_body]
pub struct ExTomlValue(toml::Value);

/// toml::map::Map, the keyed map behind toml::Table.
#[verifier::external_type_specification]
#[verifier::external_body]
#[verifier::reject_recursive_types(K)]
#[verifier::reject_recursive_types(V)]
pub struct ExTomlMap<K, V>(toml::map::Map<K, V>);

/// toml::de::Error, a TOML syntax error.
#[verifier::external_type_specification]
#[verifier::external_body]
pub struct ExTomlError(toml::de::Error);

/// What a TOML value holds, as far as the supervisor reads it.
pub enum TomlModel {
    Str(Seq<char>),
    Int(i64),
    Table(Map<Seq<char>, TomlModel>),
    /// A float, boolean, datetime or array.
    Other,
}

/// The top-level table that the toml crate parses a text into, if the
/// text is a valid TOML document.
pub uninterp spec fn toml_parse(text: Seq<char>) -> Option<Map<Seq<char>, TomlModel>>;

/// The entries of a TOML table.
pub uninterp spec fn table_model(t: toml::Table) -> Map<Seq<char>, TomlModel>;

/// What a TOML value holds.
pub uninterp spec fn value_model(v: toml::Value) -> TomlModel;

/// Relies on toml::Value::as_str: the text of a string value, else `None`.
pub assume_specification[ toml::Value::as_str ](v: &toml::Value) -> (r: Option<&str>)
    ensures
        r is Some <==> value_model(*v) is Str,
        r matches Some(s) ==> value_model(*v) == TomlModel::Str(s@),
;

/// Relies on toml::Value::as_integer: the integer of an integer value, else `None`.
pub assume_specification[ toml::Value::as_integer ](v: &toml::Value) -> (r: Option<i64>)
    ensures
        r is Some <==> value_model(*v) is Int,
        r matches Some(i) ==> value_model(*v) == TomlModel::Int(i),
;

/// Relies on toml::Value::as_table: the table of a table value, else `None`.
pub assume_specification[ toml::Value::as_table ](v: &toml::Value) -> (r: Option<&toml::Table>)
    ensures
        r is Some <==> value_model(*v) is Table,
        r matches Some(t) ==> value_model(*v) == TomlModel::Table(table_model(*t)),
;

/// Relies on toml's `FromStr` for `toml::Table` (toml::from_str): parses a
/// TOML document into its top-level table, or reports a syntax error.
#[verifier::external_body]
fn parse_document(text: &str) -> (r: Result<toml::Table, toml::de::Error>)
    ensures
        r is Ok <==> toml_parse(text@) is Some,
        r matches Ok(t) ==> toml_parse(text@) == Some(table_model(t)),
{
    text.parse::<toml::Table>()
}

/// Whether the keys of a sequence of entries are pairwise distinct.
pub open spec fn distinct_keys<T>(keys: Seq<(Seq<char>, T)>) -> bool {
    forall|i: int, j: int| 0 <= i < j < keys.len() ==> keys[i].0 != keys[j].0
}

pub open spec fn entry_keys(es: Seq<(String, toml::Value)>) -> Seq<(Seq<char>, ())> {
    es.map_values(|e: (String, toml::Value)| (e.0@, ()))
}

/// Relies on toml::map::Map::iter: each entry of a table once, with a copy
/// of its value.
#[verifier::external_body]
fn table_entries(t: &toml::Table) -> (r: Vec<(String, toml::Value)>)
    ensures
        distinct_keys(entry_keys(r@)),
        forall|i: int|
            0 <= i < r.len() ==> table_model(*t).contains_key((#[trigger] r[i]).0@)
                && table_model(*t)[r[i].0@] == value_model(r[i].1),
        forall|k: Seq<char>|
            #[trigger] table_model(*t).contains_key(k) ==> exists|i: int|
                0 <= i < r.len() && (#[trigger] r[i]).0@ == k,
{
    t.iter().map(|(k, v)| (k.clone(), v.clone())).collect()
}

/// The field value that a TOML value stands for.
pub open spec fn field_model(v: TomlModel) -> FieldModel {
    match v {
        TomlModel::Str(s) => FieldModel::Text(s),
        TomlModel::Int(i) => FieldModel::Integer(i),
        _ => FieldModel::Other,
    }
}

/// Whether `fs` lists the fields of the table `t`, each once, in some order.
pub open spec fn fields_match(fs: Seq<(Seq<char>, FieldModel)>, t: Map<Seq<char>, TomlModel>) -> bool {
    &&& distinct_keys(fs)
    &&& forall|i: int|
        0 <= i < fs.len() ==> t.contains_key((#[trigger] fs[i]).0) && fs[i].1 == field_model(t[fs[i].0])
    &&& forall|k: Seq<char>| #[trigger] t.contains_key(k) ==> exists|i: int| 0 <= i < fs.len() && (#[trigger] fs[i]).0 == k
}

/// Whether every declaration in a sequence has a different name.
pub open spec fn distinct_names(ds: Seq<DeclModel>) -> bool {
    forall|i: int, j: int| 0 <= i < j < ds.len() ==> ds[i].name != ds[j].name
}

/// The `process` table of a document, where it has one.
pub open spec fn process_table(doc: Map<Seq<char>, TomlModel>) -> Option<Map<Seq<char>, TomlModel>> {
    if doc.contains_key("process"@) && doc["process"@] is Table {
        Some(doc["process"@]->Table_0)
    } else {
        None
    }
}

/// Whether a document declares processes: it has a `process` table and
/// every entry of that table is a table.
pub open spec fn declares_processes(doc: Map<Seq<char>, TomlModel>) -> bool {
    &&& process_table(doc) is Some
    &&& forall|k: Seq<char>| #[trigger] process_table(doc)->Some_0.contains_key(k)
        ==> process_table(doc)->Some_0[k] is Table
}

/// Whether `ds` lists the processes of the table `procs`, each once, in
/// some order: one declaration per key, named by it, with its table's fields.
pub open spec fn decls_match(ds: Seq<DeclModel>, procs: Map<Seq<char>, TomlModel>) -> bool {
    &&& distinct_names(ds)
    &&& forall|i: int|
        0 <= i < ds.len() ==> procs.contains_key((#[trigger] ds[i]).name) && procs[ds[i].name] is Table
            && fields_match(ds[i].fields, procs[ds[i].name]->Table_0)
    &&& forall|k: Seq<char>| #[trigger] procs.contains_key(k) ==> exists|i: int| 0 <= i < ds.len() && (#[trigger] ds[i]).name == k
}

/// Whether `d` is the declaration of the entry `name` of `procs`.
pub open spec fn declares_entry(procs: Map<Seq<char>, TomlModel>, name: Seq<char>, d: DeclModel) -> bool {
    &&& d.name == name
    &&& procs[name] is Table
    &&& fields_match(d.fields, procs[name]->Table_0)
}

/// The field value that a TOML value stands for.
fn field_value(v: &toml::Value) -> (r: FieldValue)
    ensures
        r@ == field_model(value_model(*v)),
{
    match v.as_str() {
        Some(s) => FieldValue::Text(String::from_str(s)),
        None => match v.as_integer() {
            Some(i) => FieldValue::Integer(i),
            None => FieldValue::Other,
        },
    }
}

/// The fields of one process table, each once.
fn decl_fields(t: &toml::Table) -> (r: Vec<(String, FieldValue)>)
    ensures
        fields_match(fields_view(r@), table_model(*t)),
{
    let es = table_entries(t);
    let ghost m = table_model(*t);
    let mut out: Vec<(String, FieldValue)> = Vec::new();
    let mut i: usize = 0;
    while i < es.len()
        invariant
            i <= es.len(),
            m == table_model(*t),
            distinct_keys(entry_keys(es@)),
            forall|a: int|
                0 <= a < es.len() ==> m.contains_key((#[trigger] es@[a]).0@) && m[es@[a].0@]
                    == value_model(es@[a].1),
            out.len() == i,
            forall|a: int|
                0 <= a < i ==> (#[trigger] fields_view(out@)[a]) == (es@[a].0@, field_model(
                    value_model(es@[a].1),
                )),
        decreases es.len() - i,
    {
        let key = es[i].0.clone();
        let value = field_value(&es[i].1);
        let ghost before = out@;
        out.push((key, value));
        assert forall|a: int| 0 <= a < i + 1 implies (#[trigger] fields_view(out@)[a]) == (
            es@[a].0@,
            field_model(value_model(es@[a].1)),
        ) by {
            if a < i {
                assert(fields_view(out@)[a] == fields_view(before)[a]);
            }
        }
        i = i + 1;
    }
    let ghost fs = fields_view(out@);
    assert forall|a: int, b: int| 0 <= a < b < fs.len() implies fs[a].0 != fs[b].0 by {
        assert(entry_keys(es@)[a].0 != entry_keys(es@)[b].0);
        assert(fs[a] == (es@[a].0@, field_model(value_model(es@[a].1))));
        assert(fs[b] == (es@[b].0@, field_model(value_model(es@[b].1))));
    }
    assert forall|a: int| 0 <= a < fs.len() implies m.contains_key((#[trigger] fs[a]).0) && fs[a].1
        == field_model(m[fs[a].0]) by {
        assert(fs[a] == (es@[a].0@, field_model(value_model(es@[a].1))));
    }
    assert forall|k: Seq<char>| #[trigger] m.contains_key(k) implies exists|a: int|
        0 <= a < fs.len() && (#[trigger] fs[a]).0 == k by {
        let a = choose|a: int| 0 <= a < es.len() && (#[trigger] es@[a]).0@ == k;
        assert(fs[a] == (es@[a].0@, field_model(value_model(es@[a].1))));
    }
    out
}

/// The process declarations of a parsed document: `ConfigMalformed` exactly
/// where it does not declare processes; otherwise one declaration for each
/// entry of its `process` table, in some order.
pub fn decls_from_document(doc: &toml::Table) -> (r: Result<Vec<ProcessDecl>, ConfigError>)
    ensures
        r is Ok <==> declares_processes(table_model(*doc)),
        r matches Err(e) ==> e is ConfigMalformed,
        r matches Ok(ds) ==> decls_match(decls_view(ds@), process_table(table_model(*doc))->Some_0),
{
    let ghost dm = table_model(*doc);
    let top = table_entries(doc);
    let mut k: usize = 0;
    let mut found: Option<usize> = None;
    while k < top.len()
        invariant
            k <= top.len(),
            found is None ==> forall|a: int| 0 <= a < k ==> (#[trigger] top@[a]).0@ != "process"@,
            found matches Some(j) ==> j < top.len() && top@[j as int].0@ == "process"@,
        decreases top.len() - k,
    {
        if found.is_none() && text_eq(top[k].0.as_str(), "process") {
            found = Some(k);
        }
        k = k + 1;
    }
    let procs = match found {
        Some(j) => {
            assert(dm["process"@] == value_model(top@[j as int].1));
            match top[j].1.as_table() {
                Some(t) => t,
                None => return Err(ConfigError::ConfigMalformed),
            }
        },
        None => {
            assert(!dm.contains_key("process"@)) by {
                if dm.contains_key("process"@) {
                    let a = choose|a: int| 0 <= a < top.len() && (#[trigger] top@[a]).0@ == "process"@;
                    assert(top@[a].0@ != "process"@);
                }
            }
            return Err(ConfigError::ConfigMalformed);
        },
    };
    let ghost pm = table_model(*procs);
    assert(process_table(dm) == Some(pm));
    let es = table_entries(procs);
    let mut out: Vec<ProcessDecl> = Vec::new();
    let mut i: usize = 0;
    while i < es.len()
        invariant
            i <= es.len(),
            pm == table_model(*procs),
            dm == table_model(*doc),
            process_table(dm) == Some(pm),
            distinct_keys(entry_keys(es@)),
            forall|a: int|
                0 <= a < es.len() ==> pm.contains_key((#[trigger] es@[a]).0@) && pm[es@[a].0@]
                    == value_model(es@[a].1),
            out.len() == i,
            forall|a: int| 0 <= a < i ==> declares_entry(pm, es@[a].0@, #[trigger] decls_view(out@)[a]),
        decreases es.len() - i,
    {
        let t = match es[i].1.as_table() {
            Some(t) => t,
            None => {
                assert(pm.contains_key(es@[i as int].0@));
                assert(!(pm[es@[i as int].0@] is Table));
                return Err(ConfigError::ConfigMalformed);
            },
        };
        let fields = decl_fields(t);
        assert(pm[es@[i as int].0@] == TomlModel::Table(table_model(*t)));
        let ghost before = out@;
        out.push(ProcessDecl { name: es[i].0.clone(), fields });
        assert forall|a: int| 0 <= a < i + 1 implies declares_entry(pm, es@[a].0@, #[trigger] decls_view(out@)[a]) by {
            if a < i {
                assert(decls_view(out@)[a] == decls_view(before)[a]);
            } else {
                assert(decls_view(out@)[a] == out@[a]@);
                assert(decls_view(out@)[a].fields == fields_view(fields@));
            }
        }
        i = i + 1;
    }
    let ghost ds = decls_view(out@);
    assert forall|a: int, b: int| 0 <= a < b < ds.len() implies ds[a].name != ds[b].name by {
        assert(entry_keys(es@)[a].0 != entry_keys(es@)[b].0);
        assert(declares_entry(pm, es@[a].0@, ds[a]));
        assert(declares_entry(pm, es@[b].0@, ds[b]));
    }
    assert forall|a: int| 0 <= a < ds.len() implies pm.contains_key((#[trigger] ds[a]).name)
        && pm[ds[a].name] is Table && fields_match(ds[a].fields, pm[ds[a].name]->Table_0) by {
        assert(declares_entry(pm, es@[a].0@, ds[a]));
    }
    assert forall|key: Seq<char>| #[trigger] pm.contains_key(key) implies exists|a: int|
        0 <= a < ds.len() && (#[trigger] ds[a]).name == key by {
        let a = choose|a: int| 0 <= a < es.len() && (#[trigger] es@[a]).0@ == key;
        assert(declares_entry(pm, es@[a].0@, ds[a]));
    }
    assert forall|key: Seq<char>| #[trigger] pm.contains_key(key) implies pm[key] is Table by {
        let a = choose|a: int| 0 <= a < es.len() && (#[trigger] es@[a]).0@ == key;
        assert(pm[es@[a].0@] is Table);
    }
    Ok(out)
}

/// Builds the registry from the text of a configuration document:
/// `ConfigMalformed` where the text is not valid TOML, has no `process`
/// table, or an entry of it is not a table; otherwise the registry of the
/// document's declarations, taken in some order. A registry that is built
/// is valid.
pub fn load_registry(text: &str) -> (r: Result<Vec<Process>, ConfigError>)
    ensures
        toml_parse(text@) is None ==> registry_view(r) == Err::<Seq<crate::process::ProcessModel>, _>(
            ErrorModel::ConfigMalformed,
        ),
        toml_parse(text@) is Some && !declares_processes(toml_parse(text@)->Some_0) ==> registry_view(r)
            == Err::<Seq<crate::process::ProcessModel>, _>(ErrorModel::ConfigMalformed),
        toml_parse(text@) is Some && declares_processes(toml_parse(text@)->Some_0) ==> exists|
            ds: Seq<DeclModel>,
        |
            decls_match(ds, process_table(toml_parse(text@)->Some_0)->Some_0) && registry_outcome(ds)
                == registry_view(r),
        r matches Ok(ps) ==> registry_valid(processes_view(ps@)),
{
    let doc = match parse_document(text) {
        Ok(d) => d,
        Err(_) => return Err(ConfigError::ConfigMalformed),
    };
    let decls = match decls_from_document(&doc) {
        Ok(ds) => ds,
        Err(e) => return Err(e),
    };
    let r = build_registry(&decls);
    proof {
        lemma_registry_valid(decls_view(decls@));
    }
    assert(decls_match(decls_view(decls@), process_table(table_model(doc))->Some_0));
    r
}

/// One record per configured process: where a document declares processes
/// and the registry of its declarations is built, the registry holds one
/// record per entry of the `process` table, named by its key, each name
/// once, and each record is what that entry's table of fields gives.
pub proof fn lemma_document_records(doc: Map<Seq<char>, TomlModel>, ds: Seq<DeclModel>)
    requires
        declares_processes(doc),
        decls_match(ds, process_table(doc)->Some_0),
        registry_outcome(ds) is Ok,
    ensures
        ({
            let procs = process_table(doc)->Some_0;
            let ps = registry_outcome(ds)->Ok_0;
            &&& ps.len() == ds.len()
            &&& forall|k: Seq<char>| #[trigger] procs.contains_key(k) ==> exists|i: int|
                0 <= i < ps.len() && (#[trigger] ps[i]).name == k
            &&& forall|i: int, j: int| 0 <= i < j < ps.len() ==> ps[i].name != ps[j].name
            &&& forall|i: int|
                0 <= i < ps.len() ==> procs.contains_key((#[trigger] ps[i]).name) && fields_match(
                    ds[i].fields,
                    procs[ps[i].name]->Table_0,
                ) && decl_outcome(DeclModel { name: ps[i].name, fields: ds[i].fields }) == Ok::<
                    _,
                    ErrorModel,
                >(ps[i])
        }),
{
    let procs = process_table(doc)->Some_0;
    lemma_registry_one_record_each(ds);
    lemma_registry_valid(ds);
    let ps = registry_outcome(ds)->Ok_0;
    assert forall|k: Seq<char>| #[trigger] procs.contains_key(k) implies exists|i: int|
        0 <= i < ps.len() && (#[trigger] ps[i]).name == k by {
        let i = choose|i: int| 0 <= i < ds.len() && (#[trigger] ds[i]).name == k;
        assert(ps[i].name == ds[i].name);
    }
    assert forall|i: int| 0 <= i < ps.len() implies procs.contains_key((#[trigger] ps[i]).name)
        && fields_match(ds[i].fields, procs[ps[i].name]->Table_0) && decl_outcome(
        DeclModel { name: ps[i].name, fields: ds[i].fields },
    ) == Ok::<_, ErrorModel>(ps[i]) by {
        assert(ps[i].name == ds[i].name);
        assert(decl_outcome(ds[i]) == Ok::<_, ErrorModel>(ps[i]));
        assert(DeclModel { name: ps[i].name, fields: ds[i].fields } == ds[i]);
    }
}

} // verus!
