//! The configuration of a cluster run: the machine to connect to, the
//! credentials, and the Debian packages to install; and the merge of one
//! configuration document into another.

use vstd::prelude::*;

use toml::de::Error as TomlError;

use crate::text::{
    lemma_name_less_irreflexive, lemma_name_less_total, lemma_name_less_transitive, name_before, name_less,
};

verus! {

#[derive(Debug)]
pub struct Config {
    pub ip: String,
    pub user: Option<String>,
    pub password: Option<String>,
    pub port: u16,
    pub debpkgs: Vec<String>,
}

#[verifier::external_type_specification]
#[verifier::external_body]
pub struct ExTomlValue(toml::Value);

/// `Clone::clone` of a TOML value: the clone that the derived impl makes is
/// the same value.
#[verifier::external_body]
fn clone_toml(v: &toml::Value) -> (r: toml::Value)
    ensures
        r == *v,
{
    v.clone()
}

#[verifier::external_type_specification]
#[verifier::external_body]
pub struct ExTomlError(TomlError);

/// Whether `toml::from_str` reads `content` as a TOML document.
pub uninterp spec fn toml_parses(content: Seq<char>) -> bool;

/// The value that `toml::from_str` reads from `content`.
pub uninterp spec fn toml_value(content: Seq<char>) -> toml::Value;

/// The entries of a TOML table in the order its map hands them out (by
/// name), or `None` for a value that is no table.
pub uninterp spec fn toml_table(v: toml::Value) -> Option<Seq<(Seq<char>, toml::Value)>>;

/// `toml::from_str` into a `toml::Value`: succeeds exactly when
/// [`toml_parses`] holds of the text, and then gives [`toml_value`] of it.
#[verifier::external_body]
fn parse_toml(content: &str) -> (r: Result<toml::Value, TomlError>)
    ensures
        r is Ok <==> toml_parses(content@),
        r matches Ok(v) ==> v == toml_value(content@),
{
    toml::from_str::<toml::Value>(content)
}

/// Tells a table (`toml::Value::Table`) from the other values: a table is
/// handed out as its entries, in the order of its map; any other value is
/// handed back.
#[verifier::external_body]
fn table_entries(v: toml::Value) -> (r: Result<Vec<(String, toml::Value)>, toml::Value>)
    ensures
        match r {
            Ok(es) => toml_table(v) == Some(es@.map_values(|e: (String, toml::Value)| (e.0@, e.1))),
            Err(x) => toml_table(v) is None && x == v,
        },
{
    match v {
        toml::Value::Table(t) => Ok(t.into_iter().collect()),
        other => Err(other),
    }
}

/// A value of a configuration document as the merge sees it: a table of
/// named values, or any other value, carried as it is.
#[derive(Debug)]
pub enum ConfigValue {
    Table(Vec<(String, ConfigValue)>),
    Other(toml::Value),
}

/// The mathematical picture of a [`ConfigValue`]: names as character
/// sequences, tables as sequences of entries.
pub enum ConfigView {
    Table(Seq<(Seq<char>, ConfigView)>),
    Other(toml::Value),
}

pub open spec fn config_view(v: ConfigValue) -> ConfigView
    decreases v,
{
    match v {
        ConfigValue::Table(es) => ConfigView::Table(entries_view(es@)),
        ConfigValue::Other(x) => ConfigView::Other(x),
    }
}

pub open spec fn entries_view(es: Seq<(String, ConfigValue)>) -> Seq<(Seq<char>, ConfigView)>
    decreases es,
{
    if es.len() == 0 {
        Seq::empty()
    } else {
        entries_view(es.subrange(0, es.len() - 1)).push(
            (es[es.len() - 1].0@, config_view(es[es.len() - 1].1)),
        )
    }
}

pub proof fn lemma_entries_view(es: Seq<(String, ConfigValue)>)
    ensures
        entries_view(es).len() == es.len(),
        forall|i: int|
            0 <= i < es.len() ==> #[trigger] entries_view(es)[i] == (es[i].0@, config_view(es[i].1)),
    decreases es.len(),
{
    if es.len() > 0 {
        let front = es.subrange(0, es.len() - 1);
        lemma_entries_view(front);
        assert forall|i: int| 0 <= i < es.len() implies #[trigger] entries_view(es)[i] == (
            es[i].0@,
            config_view(es[i].1),
        ) by {
            if i < es.len() - 1 {
                assert(front[i] == es[i]);
            }
        }
    }
}

/// How the merge sees the TOML value `v`: tables, down to `fuel` levels,
/// become tables of entries; every other value is carried as it is.
pub open spec fn toml_view(v: toml::Value, fuel: nat) -> ConfigView
    decreases fuel, 0nat,
{
    if fuel == 0 {
        ConfigView::Other(v)
    } else {
        match toml_table(v) {
            Some(es) => ConfigView::Table(toml_entries_view(es, (fuel - 1) as nat)),
            None => ConfigView::Other(v),
        }
    }
}

/// The entries `es` as the merge sees them, see [`toml_view`].
pub open spec fn toml_entries_view(es: Seq<(Seq<char>, toml::Value)>, fuel: nat) -> Seq<(Seq<char>, ConfigView)>
    decreases fuel, es.len(),
{
    if es.len() == 0 {
        Seq::empty()
    } else {
        toml_entries_view(es.drop_last(), fuel).push((es.last().0, toml_view(es.last().1, fuel)))
    }
}

/// The document that `content` holds, as the merge sees it: every table is
/// opened, however deeply nested (up to `u64::MAX` levels, more than any
/// document in memory can hold).
pub open spec fn toml_document(content: Seq<char>) -> ConfigView {
    toml_view(toml_value(content), u64::MAX as nat)
}

/// `v` as the merge sees it, tables opened down to `fuel` levels.
fn from_toml(v: toml::Value, fuel: u64) -> (r: ConfigValue)
    ensures
        config_view(r) == toml_view(v, fuel as nat),
    decreases fuel,
{
    if fuel == 0 {
        return ConfigValue::Other(v);
    }
    match table_entries(v) {
        Err(x) => ConfigValue::Other(x),
        Ok(es) => {
            let mut es = es;
            let n = es.len();
            let ghost orig = es@;
            let ghost ev = orig.map_values(|e: (String, toml::Value)| (e.0@, e.1));
            let mut out: Vec<(String, ConfigValue)> = Vec::new();
            let mut j: usize = 0;
            proof {
                assert(es@ =~= orig.subrange(0, n as int));
                assert(entries_view(out@) =~= toml_entries_view(ev.subrange(0, 0), (fuel - 1) as nat));
            }
            while j < n
                invariant
                    n == orig.len(),
                    j <= n,
                    fuel > 0,
                    ev == orig.map_values(|e: (String, toml::Value)| (e.0@, e.1)),
                    es@ == orig.subrange(j as int, n as int),
                    entries_view(out@) == toml_entries_view(ev.subrange(0, j as int), (fuel - 1) as nat),
                decreases n - j,
            {
                let ghost rest = es@;
                let (k, x) = es.remove(0);
                proof {
                    assert(rest[0] == orig[j as int]);
                    assert(es@ =~= orig.subrange(j + 1, n as int));
                }
                let c = from_toml(x, fuel - 1);
                let ghost before = out@;
                out.push((k, c));
                proof {
                    assert(out@.subrange(0, out@.len() - 1) =~= before);
                    let e2 = ev.subrange(0, j + 1);
                    assert(e2.drop_last() =~= ev.subrange(0, j as int));
                    assert(e2.last() == (k@, x));
                }
                j = j + 1;
            }
            proof {
                assert(ev.subrange(0, n as int) =~= ev);
            }
            ConfigValue::Table(out)
        },
    }
}

/// Read the TOML document `content` as the merge sees it; the error of
/// `toml::from_str` where it is no TOML document.
pub fn toml_from_str(content: &str) -> (r: Result<ConfigValue, TomlError>)
    ensures
        r is Ok <==> toml_parses(content@),
        r matches Ok(v) ==> config_view(v) == toml_document(content@),
{
    match parse_toml(content) {
        Ok(v) => Ok(from_toml(v, u64::MAX)),
        Err(e) => Err(e),
    }
}

/// Why the configuration of a cluster run cannot be read.
#[derive(Debug)]
pub enum ConfigError {
    /// The configuration file is no TOML document.
    Config(TomlError),
    /// The defaults are no TOML document.
    Defaults(TomlError),
}

/// The configuration of a cluster run read from the document `content`.
/// The configuration is read first, then the `defaults`, which must be a
/// TOML document too; the run takes the values of the configuration itself.
pub fn cluster_config_value(content: &str, defaults: &str) -> (r: Result<ConfigValue, ConfigError>)
    ensures
        r is Ok <==> toml_parses(content@) && toml_parses(defaults@),
        r matches Err(ConfigError::Config(_)) <==> !toml_parses(content@),
        r matches Err(ConfigError::Defaults(_)) <==> toml_parses(content@) && !toml_parses(defaults@),
        r matches Ok(v) ==> config_view(v) == toml_document(content@),
{
    let config = match toml_from_str(content) {
        Ok(c) => c,
        Err(e) => return Err(ConfigError::Config(e)),
    };
    match toml_from_str(defaults) {
        Ok(_) => Ok(config),
        Err(e) => Err(ConfigError::Defaults(e)),
    }
}

/// The position of the first entry named `k`, if any.
pub open spec fn find_key(es: Seq<(Seq<char>, ConfigView)>, k: Seq<char>) -> Option<nat>
    decreases es.len(),
{
    if es.len() == 0 {
        None
    } else {
        match find_key(es.subrange(0, es.len() - 1), k) {
            Some(i) => Some(i),
            None => if es[es.len() - 1].0 == k {
                Some((es.len() - 1) as nat)
            } else {
                None
            },
        }
    }
}

proof fn lemma_find_key(es: Seq<(Seq<char>, ConfigView)>, k: Seq<char>, i: int)
    requires
        0 <= i <= es.len(),
        forall|j: int| 0 <= j < i ==> es[j].0 != k,
        i < es.len() ==> es[i].0 == k,
    ensures
        i < es.len() ==> find_key(es, k) == Some(i as nat),
        i == es.len() ==> find_key(es, k) is None,
    decreases es.len(),
{
    if es.len() > 0 {
        let d = es.subrange(0, es.len() - 1);
        if i < es.len() - 1 {
            lemma_find_key(d, k, i);
        } else {
            lemma_find_key(d, k, d.len() as int);
        }
    }
}

/// Where an entry named `k` goes among the entries `es`: after the leading
/// ones whose names come before `k`. In entries ordered by name this keeps
/// them ordered, as a table's map does.
pub open spec fn insert_pos(es: Seq<(Seq<char>, ConfigView)>, k: Seq<char>) -> nat
    decreases es.len(),
{
    if es.len() == 0 {
        0
    } else if name_less(es[0].0, k) {
        1 + insert_pos(es.drop_first(), k)
    } else {
        0
    }
}

proof fn lemma_insert_pos(es: Seq<(Seq<char>, ConfigView)>, k: Seq<char>, t: int)
    requires
        0 <= t <= es.len(),
        forall|j: int| 0 <= j < t ==> name_less(#[trigger] es[j].0, k),
        t < es.len() ==> !name_less(es[t].0, k),
    ensures
        insert_pos(es, k) == t,
    decreases t,
{
    if t > 0 {
        assert(name_less(es[0].0, k));
        assert forall|j: int| 0 <= j < t - 1 implies name_less(#[trigger] es.drop_first()[j].0, k) by {
            assert(es.drop_first()[j] == es[j + 1]);
        }
        lemma_insert_pos(es.drop_first(), k, t - 1);
    }
}

/// `b` merged into `a`: when both are tables, each entry of `b` in turn is
/// merged into the entry of `a` with its name (into an empty table, placed
/// among the entries of `a` by its name, when `a` has none); otherwise `b`
/// replaces `a`.
pub open spec fn merge_view(a: ConfigView, b: ConfigView) -> ConfigView
    decreases b,
{
    match b {
        ConfigView::Table(eb) => match a {
            ConfigView::Table(ea) => ConfigView::Table(merge_entries(ea, eb)),
            _ => b,
        },
        _ => b,
    }
}

/// The entries `eb` merged one after the other into the entries `ea`.
pub open spec fn merge_entries(ea: Seq<(Seq<char>, ConfigView)>, eb: Seq<(Seq<char>, ConfigView)>) -> Seq<
    (Seq<char>, ConfigView),
>
    decreases eb,
{
    if eb.len() == 0 {
        ea
    } else {
        let k = eb[0].0;
        let v = eb[0].1;
        let next = match find_key(ea, k) {
            Some(i) => ea.update(i as int, (k, merge_view(ea[i as int].1, v))),
            None => ea.insert(insert_pos(ea, k) as int, (k, merge_view(ConfigView::Table(Seq::empty()), v))),
        };
        merge_entries(next, eb.subrange(1, eb.len() as int))
    }
}

/// A copy of `b`.
fn clone_value(b: &ConfigValue) -> (r: ConfigValue)
    ensures
        config_view(r) == config_view(*b),
    decreases b,
{
    match b {
        ConfigValue::Table(es) => {
            let mut out: Vec<(String, ConfigValue)> = Vec::new();
            let mut j: usize = 0;
            while j < es.len()
                invariant
                    *b == ConfigValue::Table(*es),
                    j <= es@.len(),
                    entries_view(out@) == entries_view(es@.subrange(0, j as int)),
                decreases es@.len() - j,
            {
                let name = es[j].0.clone();
                proof {
                    assert((*b)->Table_0 == *es);
                    assert(decreases_to!(*b => (*b)->Table_0));
                    assert(decreases_to!(*es => es@));
                    assert(decreases_to!(es@ => es@[j as int]));
                    assert(decreases_to!(es@[j as int] => es@[j as int].1));
                }
                let value = clone_value(&es[j].1);
                let ghost before = out@;
                out.push((name, value));
                proof {
                    assert(out@.subrange(0, out@.len() - 1) =~= before);
                    assert(es@.subrange(0, j + 1).subrange(0, j as int) =~= es@.subrange(0, j as int));
                    assert(es@.subrange(0, j + 1)[j as int] == es@[j as int]);
                }
                j = j + 1;
            }
            proof {
                assert(es@.subrange(0, es@.len() as int) =~= es@);
            }
            ConfigValue::Table(out)
        },
        ConfigValue::Other(x) => ConfigValue::Other(clone_toml(x)),
    }
}

/// `b` merged into `a`, see [`merge_view`].
fn merged(a: ConfigValue, b: &ConfigValue) -> (r: ConfigValue)
    ensures
        config_view(r) == merge_view(config_view(a), config_view(*b)),
    decreases b,
{
    match b {
        ConfigValue::Table(eb) => match a {
            ConfigValue::Table(ea) => ConfigValue::Table(merge_into(ea, eb)),
            ConfigValue::Other(_) => clone_value(b),
        },
        ConfigValue::Other(_) => clone_value(b),
    }
}

/// The entries `eb` merged into the entries `ea`, see [`merge_entries`].
fn merge_into(ea: Vec<(String, ConfigValue)>, eb: &Vec<(String, ConfigValue)>) -> (r: Vec<
    (String, ConfigValue),
>)
    ensures
        entries_view(r@) == merge_entries(entries_view(ea@), entries_view(eb@)),
    decreases eb,
{
    let mut acc = ea;
    let n = eb.len();
    let mut j: usize = 0;
    proof {
        lemma_entries_view(eb@);
        assert(entries_view(eb@).subrange(0, n as int) =~= entries_view(eb@));
    }
    while j < n
        invariant
            n == eb@.len(),
            j <= n,
            entries_view(eb@).len() == n,
            forall|t: int| 0 <= t < n ==> #[trigger] entries_view(eb@)[t] == (eb@[t].0@, config_view(eb@[t].1)),
            merge_entries(entries_view(acc@), entries_view(eb@).subrange(j as int, n as int))
                == merge_entries(entries_view(ea@), entries_view(eb@)),
        decreases n - j,
    {
        let key = &eb[j].0;
        let value = &eb[j].1;
        let ghost ev = entries_view(acc@);
        proof {
            lemma_entries_view(acc@);
        }
        let m = acc.len();
        let mut i: usize = 0;
        while i < m && acc[i].0 != *key
            invariant
                m == acc@.len(),
                i <= m,
                ev == entries_view(acc@),
                ev.len() == m,
                forall|t: int| 0 <= t < m ==> #[trigger] ev[t] == (acc@[t].0@, config_view(acc@[t].1)),
                forall|t: int| 0 <= t < i ==> ev[t].0 != key@,
            decreases m - i,
        {
            i = i + 1;
        }
        let ghost rest = entries_view(eb@).subrange(j as int, n as int);
        proof {
            assert(rest[0] == (key@, config_view(*value)));
            assert(rest.subrange(1, rest.len() as int) =~= entries_view(eb@).subrange(j + 1, n as int));
            if i < m {
                assert(ev[i as int].0 == key@);
            }
            lemma_find_key(ev, key@, i as int);
        }
        if i < m {
            let (name, old_value) = acc.remove(i);
            let new_value = merged(old_value, value);
            acc.insert(i, (name, new_value));
            proof {
                lemma_entries_view(acc@);
                assert(entries_view(acc@) =~= ev.update(
                    i as int,
                    (key@, merge_view(ev[i as int].1, config_view(*value))),
                ));
            }
        } else {
            let name = key.clone();
            let empty_entries: Vec<(String, ConfigValue)> = Vec::new();
            proof {
                assert(entries_view(empty_entries@) =~= Seq::<(Seq<char>, ConfigView)>::empty());
            }
            let empty = ConfigValue::Table(empty_entries);
            let new_value = merged(empty, value);
            let mut pos: usize = 0;
            while pos < m && name_before(acc[pos].0.as_str(), key.as_str())
                invariant
                    m == acc@.len(),
                    pos <= m,
                    ev == entries_view(acc@),
                    ev.len() == m,
                    forall|t: int| 0 <= t < m ==> #[trigger] ev[t] == (acc@[t].0@, config_view(acc@[t].1)),
                    forall|t: int| 0 <= t < pos ==> name_less(#[trigger] ev[t].0, key@),
                decreases m - pos,
            {
                pos = pos + 1;
            }
            proof {
                lemma_insert_pos(ev, key@, pos as int);
            }
            let ghost nv = config_view(new_value);
            acc.insert(pos, (name, new_value));
            proof {
                lemma_entries_view(acc@);
                assert(entries_view(acc@) =~= ev.insert(pos as int, (key@, nv)));
            }
        }
        j = j + 1;
    }
    proof {
        assert(entries_view(eb@).subrange(n as int, n as int) =~= Seq::<(Seq<char>, ConfigView)>::empty());
    }
    acc
}

/// Merge `b` into `a`: when both are tables, each entry of `b` is merged
/// into the entry of `a` with its name, created as an empty table when
/// missing; otherwise `a` becomes a copy of `b`. See [`merge_view`].
pub fn merge(a: &mut ConfigValue, b: &ConfigValue)
    ensures
        config_view(*final(a)) == merge_view(config_view(*old(a)), config_view(*b)),
{
    let mut current = ConfigValue::Table(Vec::new());
    std::mem::swap(&mut current, a);
    *a = merged(current, b);
}

/// Whether some entry of `es` is named `k`.
pub open spec fn has_name(es: Seq<(Seq<char>, ConfigView)>, k: Seq<char>) -> bool {
    exists|q: int| 0 <= q < es.len() && #[trigger] es[q].0 == k
}

/// What [`find_key`] finds is an entry of that name, and where it finds
/// nothing, no entry has the name.
proof fn lemma_find_key_found(es: Seq<(Seq<char>, ConfigView)>, k: Seq<char>)
    ensures
        find_key(es, k) matches Some(i) ==> i < es.len() && es[i as int].0 == k,
        find_key(es, k) is None ==> forall|i: int| 0 <= i < es.len() ==> #[trigger] es[i].0 != k,
    decreases es.len(),
{
    if es.len() > 0 {
        let d = es.subrange(0, es.len() - 1);
        lemma_find_key_found(d, k);
        if let Some(i) = find_key(d, k) {
            assert(es[i as int] == d[i as int]);
        }
        if find_key(es, k) is None {
            assert(find_key(d, k) is None);
            assert forall|i: int| 0 <= i < es.len() implies #[trigger] es[i].0 != k by {
                if i < es.len() - 1 {
                    assert(es[i] == d[i]);
                }
            }
        }
    }
}

/// The entries before [`insert_pos`] come before `k`; the one at it, if
/// any, does not.
proof fn lemma_insert_pos_facts(es: Seq<(Seq<char>, ConfigView)>, k: Seq<char>)
    ensures
        insert_pos(es, k) <= es.len(),
        forall|j: int| 0 <= j < insert_pos(es, k) ==> name_less(#[trigger] es[j].0, k),
        insert_pos(es, k) < es.len() ==> !name_less(es[insert_pos(es, k) as int].0, k),
    decreases es.len(),
{
    if es.len() > 0 && name_less(es[0].0, k) {
        let d = es.drop_first();
        lemma_insert_pos_facts(d, k);
        assert forall|j: int| 0 <= j < insert_pos(es, k) implies name_less(#[trigger] es[j].0, k) by {
            if j > 0 {
                assert(es[j] == d[j - 1]);
            }
        }
        if insert_pos(es, k) < es.len() {
            assert(es[insert_pos(es, k) as int] == d[insert_pos(d, k) as int]);
        }
    }
}

/// One entry `(k, v)` merged into the entries `ea`: the first step of
/// [`merge_entries`].
pub open spec fn merge_step(ea: Seq<(Seq<char>, ConfigView)>, k: Seq<char>, v: ConfigView) -> Seq<
    (Seq<char>, ConfigView),
> {
    match find_key(ea, k) {
        Some(i) => ea.update(i as int, (k, merge_view(ea[i as int].1, v))),
        None => ea.insert(insert_pos(ea, k) as int, (k, merge_view(ConfigView::Table(Seq::empty()), v))),
    }
}

proof fn lemma_merge_step_names(ea: Seq<(Seq<char>, ConfigView)>, k: Seq<char>, v: ConfigView)
    ensures
        merge_step(ea, k, v).len() >= ea.len(),
        has_name(merge_step(ea, k, v), k),
        forall|n: Seq<char>| has_name(ea, n) ==> #[trigger] has_name(merge_step(ea, k, v), n),
{
    let next = merge_step(ea, k, v);
    lemma_find_key_found(ea, k);
    lemma_insert_pos_facts(ea, k);
    let pos: int = match find_key(ea, k) {
        Some(i) => i as int,
        None => insert_pos(ea, k) as int,
    };
    assert(next[pos].0 == k);
    assert forall|n: Seq<char>| has_name(ea, n) implies #[trigger] has_name(next, n) by {
        let q = choose|q: int| 0 <= q < ea.len() && #[trigger] ea[q].0 == n;
        match find_key(ea, k) {
            Some(i) => {
                assert(next[q].0 == n);
            },
            None => {
                if q < pos {
                    assert(next[q].0 == n);
                } else {
                    assert(next[q + 1].0 == n);
                }
            },
        }
    }
}

/// Merging entries keeps every name of the table merged into and adds
/// every name merged in that it lacked.
pub proof fn merge_keeps_names(ea: Seq<(Seq<char>, ConfigView)>, eb: Seq<(Seq<char>, ConfigView)>)
    ensures
        merge_entries(ea, eb).len() >= ea.len(),
        forall|i: int| 0 <= i < ea.len() ==> has_name(merge_entries(ea, eb), #[trigger] ea[i].0),
        forall|j: int| 0 <= j < eb.len() ==> has_name(merge_entries(ea, eb), #[trigger] eb[j].0),
    decreases eb.len(),
{
    if eb.len() > 0 {
        let k = eb[0].0;
        let v = eb[0].1;
        let next = merge_step(ea, k, v);
        let rest = eb.subrange(1, eb.len() as int);
        let r = merge_entries(ea, eb);
        assert(r == merge_entries(next, rest));
        lemma_merge_step_names(ea, k, v);
        merge_keeps_names(next, rest);
        assert forall|n: Seq<char>| has_name(next, n) implies has_name(r, n) by {
            let q = choose|q: int| 0 <= q < next.len() && #[trigger] next[q].0 == n;
            assert(has_name(r, next[q].0));
        }
        assert forall|i: int| 0 <= i < ea.len() implies has_name(r, #[trigger] ea[i].0) by {
            assert(has_name(ea, ea[i].0));
            assert(has_name(next, ea[i].0));
        }
        assert forall|j: int| 0 <= j < eb.len() implies has_name(r, #[trigger] eb[j].0) by {
            if j > 0 {
                assert(rest[j - 1] == eb[j]);
            }
        }
    }
}

/// Names come in order, each before the next: no name occurs twice.
pub open spec fn names_sorted(es: Seq<(Seq<char>, ConfigView)>) -> bool {
    forall|i: int, j: int| 0 <= i < j < es.len() ==> name_less(#[trigger] es[i].0, #[trigger] es[j].0)
}

/// Every table in `v` has its entries in order of their names, as the map
/// of a table keeps them.
pub open spec fn sorted_keys(v: ConfigView) -> bool
    decreases v,
{
    match v {
        ConfigView::Table(es) => {
            &&& names_sorted(es)
            &&& forall|i: int| 0 <= i < es.len() ==> sorted_keys(#[trigger] es[i].1)
        },
        ConfigView::Other(_) => true,
    }
}

/// An entry whose name is new, put at [`insert_pos`], keeps the names in
/// order.
proof fn lemma_insert_sorted(es: Seq<(Seq<char>, ConfigView)>, k: Seq<char>, x: ConfigView)
    requires
        names_sorted(es),
        forall|i: int| 0 <= i < es.len() ==> #[trigger] es[i].0 != k,
    ensures
        names_sorted(es.insert(insert_pos(es, k) as int, (k, x))),
{
    lemma_insert_pos_facts(es, k);
    let p = insert_pos(es, k) as int;
    let t = es.insert(p, (k, x));
    if p < es.len() {
        lemma_name_less_total(es[p].0, k);
    }
    assert forall|i: int, j: int| 0 <= i < j < t.len() implies name_less(#[trigger] t[i].0, #[trigger] t[j].0) by {
        if j < p {
            assert(t[i] == es[i] && t[j] == es[j]);
        } else if j == p {
            assert(t[i] == es[i]);
        } else if i < p {
            assert(t[i] == es[i] && t[j] == es[j - 1]);
        } else if i == p {
            assert(t[j] == es[j - 1]);
            if j - 1 > p {
                lemma_name_less_transitive(k, es[p].0, es[j - 1].0);
            }
        } else {
            assert(t[i] == es[i - 1] && t[j] == es[j - 1]);
        }
    }
}

/// A value that is no table replaces what it is merged into.
pub proof fn merge_other_replaces(a: ConfigView, x: toml::Value)
    ensures
        merge_view(a, ConfigView::Other(x)) == ConfigView::Other(x),
{
}

/// Merging into a value that is no table gives what was merged.
pub proof fn merge_into_other(y: toml::Value, b: ConfigView)
    ensures
        merge_view(ConfigView::Other(y), b) == b,
{
}

/// Merging keeps tables in order: where every table of both values has its
/// entries in order of their names, so has every table of the merge.
pub proof fn merge_keeps_sorted(a: ConfigView, b: ConfigView)
    requires
        sorted_keys(a),
        sorted_keys(b),
    ensures
        sorted_keys(merge_view(a, b)),
    decreases b, 0nat,
{
    if let ConfigView::Table(eb) = b {
        if let ConfigView::Table(ea) = a {
            merge_entries_sorted(ea, eb);
        }
    }
}

proof fn merge_entries_sorted(ea: Seq<(Seq<char>, ConfigView)>, eb: Seq<(Seq<char>, ConfigView)>)
    requires
        names_sorted(ea),
        forall|i: int| 0 <= i < ea.len() ==> sorted_keys(#[trigger] ea[i].1),
        forall|i: int| 0 <= i < eb.len() ==> sorted_keys(#[trigger] eb[i].1),
    ensures
        sorted_keys(ConfigView::Table(merge_entries(ea, eb))),
    decreases eb, eb.len(),
{
    if eb.len() > 0 {
        let k = eb[0].0;
        let v = eb[0].1;
        let next = merge_step(ea, k, v);
        let rest = eb.subrange(1, eb.len() as int);
        assert(merge_entries(ea, eb) == merge_entries(next, rest));
        assert(decreases_to!(eb => eb[0]));
        assert(decreases_to!(eb[0] => eb[0].1));
        lemma_find_key_found(ea, k);
        match find_key(ea, k) {
            Some(i) => {
                merge_keeps_sorted(ea[i as int].1, v);
                assert forall|q: int| 0 <= q < next.len() implies sorted_keys(#[trigger] next[q].1) by {
                    if q != i {
                        assert(next[q] == ea[q]);
                    }
                }
                assert forall|q: int, w: int| 0 <= q < w < next.len() implies name_less(
                    #[trigger] next[q].0,
                    #[trigger] next[w].0,
                ) by {
                    assert(next[q].0 == ea[q].0 && next[w].0 == ea[w].0);
                }
            },
            None => {
                merge_keeps_sorted(ConfigView::Table(Seq::empty()), v);
                lemma_insert_sorted(ea, k, merge_view(ConfigView::Table(Seq::empty()), v));
                lemma_insert_pos_facts(ea, k);
                let p = insert_pos(ea, k) as int;
                assert forall|q: int| 0 <= q < next.len() implies sorted_keys(#[trigger] next[q].1) by {
                    if q < p {
                        assert(next[q] == ea[q]);
                    } else if q > p {
                        assert(next[q] == ea[q - 1]);
                    }
                }
            },
        }
        assert forall|q: int| 0 <= q < rest.len() implies sorted_keys(#[trigger] rest[q].1) by {
            assert(rest[q] == eb[q + 1]);
        }
        merge_entries_sorted(next, rest);
    }
}

/// Merging a value whose tables keep their entries in order of their
/// names into an empty table gives that value back.
pub proof fn merge_into_empty_table(b: ConfigView)
    requires
        sorted_keys(b),
    ensures
        merge_view(ConfigView::Table(Seq::empty()), b) == b,
    decreases b, 0nat,
{
    if let ConfigView::Table(eb) = b {
        merge_entries_into_prefix(eb, 0);
        assert(eb.subrange(0, 0) =~= Seq::<(Seq<char>, ConfigView)>::empty());
        assert(eb.subrange(0, eb.len() as int) =~= eb);
    }
}

proof fn merge_entries_into_prefix(eb: Seq<(Seq<char>, ConfigView)>, j: int)
    requires
        0 <= j <= eb.len(),
        names_sorted(eb),
        forall|i: int| 0 <= i < eb.len() ==> sorted_keys(#[trigger] eb[i].1),
    ensures
        merge_entries(eb.subrange(0, j), eb.subrange(j, eb.len() as int)) == eb,
    decreases eb, eb.len() - j,
{
    if j == eb.len() {
        assert(eb.subrange(0, j) =~= eb);
    } else {
        let pre = eb.subrange(0, j);
        let rest = eb.subrange(j, eb.len() as int);
        let (k, v) = eb[j];
        assert(rest[0] == eb[j]);
        assert forall|t: int| 0 <= t < j implies name_less(#[trigger] pre[t].0, k) by {
            assert(pre[t] == eb[t]);
        }
        assert forall|t: int| 0 <= t < j implies pre[t].0 != k by {
            lemma_name_less_irreflexive(k);
            assert(name_less(pre[t].0, k));
        }
        lemma_find_key(pre, k, pre.len() as int);
        lemma_insert_pos(pre, k, j);
        assert(decreases_to!(eb => eb[j]));
        assert(decreases_to!(eb[j] => eb[j].1));
        merge_into_empty_table(v);
        assert(pre.insert(j, (k, merge_view(ConfigView::Table(Seq::empty()), v))) =~= eb.subrange(0, j + 1));
        assert(rest.subrange(1, rest.len() as int) =~= eb.subrange(j + 1, eb.len() as int));
        merge_entries_into_prefix(eb, j + 1);
    }
}

} // verus!
