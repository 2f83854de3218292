//! Operation contracts for recipes: effects, required inputs, a result
//! hint, and the in-process registry that looks them up. Unknown intents
//! fail closed; nothing here shells out.

use vstd::prelude::*;

use crate::text::{chars_of, is_alnum, is_alnum_exec, str_eq, strings_view, trim, trim_chars};

verus! {

/// What kind of name a schema describes.
#[derive(Debug, Clone, Copy, PartialEq, Eq, Structural)]
pub enum SchemaKind {
    /// A first-class protocol op (`click`, `snapshot`, ...).
    Protocol,
    /// Host `invoke` name (`todo.add`).
    Invoke,
    /// Stable widget id (`todo-add`).
    Id,
}

/// What running an op may do.
#[derive(Debug, Clone, Copy, PartialEq, Eq, Hash, Structural)]
pub enum Effect {
    Read,
    Write,
    Exit,
}

/// One declared argument of an `invoke`.
#[derive(Debug, Clone, PartialEq, Eq)]
pub struct ArgSchema {
    pub ty: String,
    pub required: bool,
}

/// The contract of one op, invoke name or stable id. `args` lists each
/// argument name once.
#[derive(Debug, Clone)]
pub struct OpSchema {
    pub name: String,
    pub kind: SchemaKind,
    pub description: String,
    pub effects: Vec<Effect>,
    pub idempotent: bool,
    pub verified: bool,
    pub required: Vec<String>,
    pub args: Vec<(String, ArgSchema)>,
    pub result: Option<serde_json::Value>,
    pub keywords: Vec<String>,
}

/// A character allowed in a schema name.
pub open spec fn name_char(c: char) -> bool {
    is_alnum(c) || c == '_' || c == '-' || c == '.'
}

pub open spec fn arg_names(args: Seq<(String, ArgSchema)>) -> Seq<Seq<char>> {
    Seq::new(args.len(), |i: int| args[i].0@)
}

/// Whether `req` may stand in `required`: it has an `args` entry, or it is
/// one of the fields every op carries.
pub open spec fn required_ok(s: OpSchema, req: Seq<char>) -> bool {
    arg_names(s.args@).contains(req) || req == "target"@ || req == "text"@ || req == "value"@
}

/// `OpSchema::validate`: why the schema is refused, if it is.
pub open spec fn schema_error(s: OpSchema) -> Option<Seq<char>> {
    let name = s.name@;
    let req = strings_view(s.required@);
    if trim(name).len() == 0 {
        Some("schema name cannot be empty"@)
    } else if exists|i: int| 0 <= i < name.len() && !name_char(#[trigger] name[i]) {
        Some("schema name `"@ + name + "` must be alphanumeric plus _-. "@)
    } else if exists|k: int| 0 <= k < req.len() && !required_ok(s, #[trigger] req[k]) {
        let k = choose|k: int|
            0 <= k < req.len() && !required_ok(s, #[trigger] req[k]) && forall|j: int|
                0 <= j < k ==> required_ok(s, #[trigger] req[j]);
        Some("schema `"@ + name + "` lists required `"@ + req[k] + "` with no args entry"@)
    } else {
        None
    }
}

fn has_arg(args: &Vec<(String, ArgSchema)>, name: &str) -> (r: bool)
    ensures
        r == arg_names(args@).contains(name@),
{
    let mut i: usize = 0;
    while i < args.len()
        invariant
            i <= args.len(),
            forall|j: int| 0 <= j < i ==> #[trigger] arg_names(args@)[j] != name@,
        decreases args.len() - i,
    {
        if str_eq(args[i].0.as_str(), name) {
            assert(arg_names(args@)[i as int] == name@);
            return true;
        }
        i += 1;
    }
    proof {
        if arg_names(args@).contains(name@) {
            let j = choose|j: int| 0 <= j < arg_names(args@).len() && arg_names(args@)[j] == name@;
            assert(arg_names(args@)[j] != name@);
        }
    }
    false
}

impl OpSchema {
    /// Refuse an empty name, a name with characters outside
    /// `[A-Za-z0-9_.-]`, and a required field with no `args` entry.
    pub fn validate(&self) -> (r: Result<(), String>)
        ensures
            match schema_error(*self) {
                Some(e) => r matches Err(x) && x@ == e,
                None => r is Ok,
            },
    {
        let name = chars_of(self.name.as_str());
        let t = trim_chars(&name);
        if t.len() == 0 {
            return Err("schema name cannot be empty".to_owned());
        }
        let mut i: usize = 0;
        while i < name.len()
            invariant
                i <= name.len(),
                name@ == self.name@,
                trim(self.name@).len() != 0,
                forall|j: int| 0 <= j < i ==> name_char(#[trigger] name@[j]),
            decreases name.len() - i,
        {
            let c = name[i];
            if !(is_alnum_exec(c) || c == '_' || c == '-' || c == '.') {
                assert(!name_char(self.name@[i as int]));
                assert(trim(self.name@).len() != 0);
                assert(exists|q: int| 0 <= q < self.name@.len() && !name_char(#[trigger] self.name@[q]));
                let mut e = "schema name `".to_owned();
                e.append(self.name.as_str());
                e.append("` must be alphanumeric plus _-. ");
                assert(e@ == "schema name `"@ + self.name@ + "` must be alphanumeric plus _-. "@);
                assert(schema_error(*self) == Some(e@));
                return Err(e);
            }
            i += 1;
        }
        let ghost req = strings_view(self.required@);
        let mut k: usize = 0;
        while k < self.required.len()
            invariant
                k <= self.required.len(),
                name@ == self.name@,
                trim(self.name@).len() != 0,
                forall|j: int| 0 <= j < name@.len() ==> name_char(#[trigger] name@[j]),
                req == strings_view(self.required@),
                forall|j: int| 0 <= j < k ==> required_ok(*self, #[trigger] req[j]),
            decreases self.required.len() - k,
        {
            let r = self.required[k].as_str();
            assert(req[k as int] == r@);
            if !has_arg(&self.args, r) && !str_eq(r, "target") && !str_eq(r, "text") && !str_eq(r, "value") {
                proof {
                    assert(!required_ok(*self, req[k as int]));
                    assert(forall|j: int| 0 <= j < k ==> required_ok(*self, #[trigger] req[j]));
                    assert(forall|j: int| 0 <= j < name@.len() ==> name_char(#[trigger] name@[j]));
                    let kk = choose|q: int|
                        0 <= q < req.len() && !required_ok(*self, #[trigger] req[q]) && forall|j: int|
                            0 <= j < q ==> required_ok(*self, #[trigger] req[j]);
                    if kk < k {
                        assert(required_ok(*self, req[kk]));
                    } else if kk > k {
                        assert(required_ok(*self, req[k as int]));
                    }
                }
                let mut e = "schema `".to_owned();
                e.append(self.name.as_str());
                e.append("` lists required `");
                e.append(r);
                e.append("` with no args entry");
                return Err(e);
            }
            k += 1;
        }
        Ok(())
    }
}

/// In-process schema registry, keyed by schema name. No network, no shell
/// data sources.
#[derive(Debug)]
pub struct Registry {
    schemas: Vec<OpSchema>,
}

impl Registry {
    /// The registered schemas, in the order they were first registered.
    pub closed spec fn entries(&self) -> Seq<OpSchema> {
        self.schemas@
    }

    /// No two entries share a name.
    #[verifier::type_invariant]
    pub open spec fn wf(&self) -> bool {
        forall|a: int, b: int|
            0 <= a < self.entries().len() && 0 <= b < self.entries().len() && a != b
                ==> #[trigger] self.entries()[a].name@ != #[trigger] self.entries()[b].name@
    }

    /// The entry named `name`, if any.
    pub open spec fn find(&self, name: Seq<char>) -> Option<int> {
        if exists|i: int| 0 <= i < self.entries().len() && #[trigger] self.entries()[i].name@ == name {
            Some(choose|i: int| 0 <= i < self.entries().len() && #[trigger] self.entries()[i].name@ == name)
        } else {
            None
        }
    }

    pub fn new() -> (r: Self)
        ensures
            r.entries().len() == 0,
            r.wf(),
    {
        Registry { schemas: Vec::new() }
    }

    fn position(&self, name: &str) -> (r: Option<usize>)
        ensures
            match r {
                Some(i) => i < self.entries().len() && self.entries()[i as int].name@ == name@,
                None => self.find(name@) is None,
            },
    {
        let mut i: usize = 0;
        while i < self.schemas.len()
            invariant
                i <= self.schemas.len(),
                forall|j: int| 0 <= j < i ==> #[trigger] self.schemas@[j].name@ != name@,
            decreases self.schemas.len() - i,
        {
            if str_eq(self.schemas[i].name.as_str(), name) {
                return Some(i);
            }
            i += 1;
        }
        None
    }

    /// Validate `schema` and register it, replacing an entry of the same
    /// name. A refused schema leaves the registry unchanged.
    pub fn insert(&mut self, schema: OpSchema) -> (r: Result<(), String>)
        ensures
            final(self).wf(),
            match schema_error(schema) {
                Some(e) => r matches Err(x) && x@ == e && final(self).entries() == old(self).entries(),
                None => r is Ok && (final(self).find(schema.name@) matches Some(i)
                    && final(self).entries()[i] == schema)
                    && forall|n: Seq<char>| n != schema.name@ ==> #[trigger] final(self).find(n) == old(self).find(n),
            },
            old(self).entries().len() <= final(self).entries().len(),
            forall|j: int|
                0 <= j < old(self).entries().len() && old(self).entries()[j].name@ != schema.name@
                    ==> #[trigger] final(self).entries()[j] == old(self).entries()[j],
    {
        proof {
            use_type_invariant(&*self);
        }
        match schema.validate() {
            Ok(()) => {},
            Err(e) => return Err(e),
        }
        let ghost old_entries = self.schemas@;
        let ghost nm = schema.name@;
        let pos = self.position(schema.name.as_str());
        let mut schemas: Vec<OpSchema> = Vec::new();
        std::mem::swap(&mut schemas, &mut self.schemas);
        match pos {
            Some(i) => {
                schemas.set(i, schema);
                let ghost e = schemas@;
                proof {
                    assert forall|a: int, b: int| 0 <= a < e.len() && 0 <= b < e.len() && a != b implies #[trigger] e[a].name@ != #[trigger] e[b].name@ by {
                        if a != i && b != i {
                            assert(e[a] == old_entries[a] && e[b] == old_entries[b]);
                        } else if a == i {
                            assert(e[b] == old_entries[b]);
                            assert(old_entries[i as int].name@ == nm);
                        } else {
                            assert(e[a] == old_entries[a]);
                            assert(old_entries[i as int].name@ == nm);
                        }
                    }
                }
                self.schemas = schemas;
                proof {
                    assert(self.entries()[i as int].name@ == nm);
                    assert forall|n: Seq<char>| n != nm implies #[trigger] self.find(n) == old(self).find(n) by {
                        if exists|j: int| 0 <= j < e.len() && #[trigger] e[j].name@ == n {
                            let j1 = choose|j: int| 0 <= j < e.len() && #[trigger] e[j].name@ == n;
                            assert(j1 != i);
                            assert(e[j1] == old_entries[j1]);
                            assert(old_entries[j1].name@ == n);
                            let j2 = choose|j: int| 0 <= j < old_entries.len() && #[trigger] old_entries[j].name@ == n;
                            assert(j2 != i);
                            assert(e[j2] == old_entries[j2]);
                            assert(j1 == j2) by {
                                if j1 != j2 {
                                    assert(e[j1].name@ != e[j2].name@);
                                }
                            }
                        }
                        if exists|j: int| 0 <= j < old_entries.len() && #[trigger] old_entries[j].name@ == n {
                            let j2 = choose|j: int| 0 <= j < old_entries.len() && #[trigger] old_entries[j].name@ == n;
                            assert(j2 != i);
                            assert(e[j2] == old_entries[j2]);
                        }
                    }
                    let f = self.find(nm);
                    assert(f is Some);
                    let fi = f->0;
                    if fi != i {
                        assert(e[fi].name@ == nm && e[i as int].name@ == nm);
                    }
                }
            },
            None => {
                schemas.push(schema);
                let ghost e = schemas@;
                let ghost i = old_entries.len() as int;
                proof {
                    assert forall|a: int, b: int| 0 <= a < e.len() && 0 <= b < e.len() && a != b implies #[trigger] e[a].name@ != #[trigger] e[b].name@ by {
                        if a < i && b < i {
                            assert(e[a] == old_entries[a] && e[b] == old_entries[b]);
                        } else if a == i {
                            assert(e[b] == old_entries[b]);
                            assert(old_entries[b].name@ != nm);
                        } else {
                            assert(e[a] == old_entries[a]);
                            assert(old_entries[a].name@ != nm);
                        }
                    }
                }
                self.schemas = schemas;
                proof {
                    assert(e[i].name@ == nm);
                    assert forall|n: Seq<char>| n != nm implies #[trigger] self.find(n) == old(self).find(n) by {
                        if exists|j: int| 0 <= j < e.len() && #[trigger] e[j].name@ == n {
                            let j1 = choose|j: int| 0 <= j < e.len() && #[trigger] e[j].name@ == n;
                            assert(j1 < i);
                            assert(old_entries[j1].name@ == n);
                            let j2 = choose|j: int| 0 <= j < old_entries.len() && #[trigger] old_entries[j].name@ == n;
                            assert(e[j2] == old_entries[j2]);
                            assert(j1 == j2) by {
                                if j1 != j2 {
                                    assert(e[j1].name@ != e[j2].name@);
                                }
                            }
                        }
                        if exists|j: int| 0 <= j < old_entries.len() && #[trigger] old_entries[j].name@ == n {
                            let j2 = choose|j: int| 0 <= j < old_entries.len() && #[trigger] old_entries[j].name@ == n;
                            assert(e[j2] == old_entries[j2]);
                        }
                    }
                    let f = self.find(nm);
                    assert(f is Some);
                    let fi = f->0;
                    if fi != i {
                        assert(e[fi].name@ == nm && e[i].name@ == nm);
                    }
                }
            },
        }
        Ok(())
    }

    /// The schema registered under `name`.
    pub fn get(&self, name: &str) -> (r: Option<&OpSchema>)
        ensures
            match self.find(name@) {
                Some(i) => r == Some(&self.entries()[i]),
                None => r is None,
            },
    {
        proof {
            use_type_invariant(self);
        }
        match self.position(name) {
            Some(i) => {
                proof {
                    let f = self.find(name@);
                    assert(f is Some);
                    let fi = f->0;
                    if fi != i {
                        assert(self.entries()[fi].name@ == name@);
                    }
                }
                Some(&self.schemas[i])
            },
            None => None,
        }
    }

    /// The registered schemas, in the order they were first registered.
    pub fn schemas(&self) -> (r: &Vec<OpSchema>)
        ensures
            r@ == self.entries(),
    {
        &self.schemas
    }
}

} // verus!
