//! The schema container: the table of types and the root.

use crate::error::{ErrorKind, LqError};
use crate::identifier::StrIdentifier;
use crate::schema::any_type::{variant_references, AnyType};
use crate::schema::rules::{name_index, resolve_in, resolve_index, Env};
use crate::schema::type_ref::{RefTarget, TypeRef};
use vstd::prelude::*;

verus! {

/// A schema: types that refer to each other by index or by name, and the
/// reference of the root type, which a whole document is validated against.
#[derive(Debug)]
pub struct TypeContainer {
    pub types: Vec<AnyType>,
    pub names: Vec<StrIdentifier>,
    pub root: TypeRef,
}

/// Collects the types of a schema.
#[derive(Debug)]
pub struct SchemaBuilder {
    pub types: Vec<AnyType>,
    pub names: Vec<StrIdentifier>,
}

/// The texts of a row of identifiers.
pub open spec fn name_texts(names: Seq<StrIdentifier>) -> Seq<Seq<char>> {
    Seq::new(names.len(), |i: int| names[i]@)
}

/// Whether every reference of every type, and the root, points at a type of
/// the schema.
pub open spec fn closed(env: Env, root: RefTarget) -> bool {
    &&& resolve_index(env, root) is Some
    &&& forall|i: int, j: int|
        0 <= i < env.types.len() && 0 <= j < env.types[i].references().len() ==> resolve_index(
            env,
            (#[trigger] env.types[i].references()[j]).target(),
        ) is Some
}

/// Whether every reference of the first `k` types points at a type.
pub open spec fn closed_up_to(env: Env, k: int) -> bool {
    forall|i: int, j: int|
        0 <= i < k && i < env.types.len() && 0 <= j < env.types[i].references().len()
            ==> resolve_index(env, (#[trigger] env.types[i].references()[j]).target()) is Some
}

/// The type that a reference points at among the given types. Whether the
/// mode is strict makes no difference to it.
pub open spec fn found(types: Seq<AnyType>, names: Seq<StrIdentifier>, target: RefTarget) -> Option<
    AnyType,
> {
    resolve_in(Env { types, names: name_texts(names), strict: false }, target)
}

/// What a reference points at does not depend on the mode.
pub proof fn lemma_found(env: Env, names: Seq<StrIdentifier>, target: RefTarget)
    requires
        env.names == name_texts(names),
    ensures
        resolve_in(env, target) == found(env.types, names, target),
        resolve_in(crate::schema::rules::loose(env), target) == found(env.types, names, target),
{
}

/// A name that none of the names from the `i`-th on is has no index among
/// them.
pub proof fn lemma_name_free(names: Seq<Seq<char>>, name: Seq<char>, i: int)
    requires
        0 <= i,
        forall|k: int| i <= k < names.len() ==> names[k] != name,
    ensures
        name_index(names, name, i) is None,
    decreases names.len() - i,
{
    if i < names.len() {
        lemma_name_free(names, name, i + 1);
    }
}

/// Finds the first of the names that is the given one.
pub fn find_name(names: &Vec<StrIdentifier>, name: &StrIdentifier) -> (r: Option<usize>)
    ensures
        match r {
            Some(i) => name_index(name_texts(names@), name@, 0) == Some(i as int) && i
                < names@.len(),
            None => name_index(name_texts(names@), name@, 0) is None,
        },
{
    let mut index: usize = 0;
    while index < names.len()
        invariant
            index <= names@.len(),
            name_index(name_texts(names@), name@, 0) == name_index(
                name_texts(names@),
                name@,
                index as int,
            ),
        decreases names.len() - index,
    {
        if names[index].is_equal(name) {
            return Some(index);
        }
        index += 1;
    }
    None
}

/// Finds the type that a reference points at among the given types.
pub fn find_type<'t>(types: &'t Vec<AnyType>, names: &Vec<StrIdentifier>, reference: &TypeRef)
    -> (r: Option<&'t AnyType>)
    ensures
        match r {
            Some(t) => found(types@, names@, reference.target()) == Some(*t),
            None => found(types@, names@, reference.target()) is None,
        },
{
    match reference {
        TypeRef::Numerical(index) => {
            let i = *index as usize;
            if i < types.len() {
                Some(&types[i])
            } else {
                None
            }
        },
        TypeRef::Identifier(name) => match find_name(names, name) {
            Some(i) => if i < types.len() {
                Some(&types[i])
            } else {
                None
            },
            None => None,
        },
    }
}

/// Whether a reference points at one of the given types.
pub open spec fn points_at_type(types: Seq<AnyType>, names: Seq<StrIdentifier>, r: TypeRef) -> bool {
    found(types, names, r.target()) is Some
}

/// Whether every reference in a row points at one of the given types.
fn row_found(types: &Vec<AnyType>, names: &Vec<StrIdentifier>, row: &[TypeRef]) -> (b: bool)
    ensures
        b == forall|k: int| 0 <= k < row@.len() ==> points_at_type(types@, names@, #[trigger] row@[k]),
{
    let mut index: usize = 0;
    while index < row.len()
        invariant
            index <= row@.len(),
            forall|k: int| 0 <= k < index ==> points_at_type(types@, names@, #[trigger] row@[k]),
        decreases row.len() - index,
    {
        if find_type(types, names, &row[index]).is_none() {
            return false;
        }
        index += 1;
    }
    true
}

/// Whether every reference that a type holds points at one of the given
/// types.
pub fn all_found(any_type: &AnyType, types: &Vec<AnyType>, names: &Vec<StrIdentifier>) -> (b: bool)
    ensures
        b == forall|j: int|
            0 <= j < any_type.references().len() ==> points_at_type(
                types@,
                names@,
                #[trigger] any_type.references()[j],
            ),
{
    match any_type {
        AnyType::Option(t) => {
            proof {
                assert(any_type.references()[0] == t.inner);
            }
            find_type(types, names, &t.inner).is_some()
        },
        AnyType::Sequence(t) => {
            proof {
                assert(any_type.references()[0] == t.element);
            }
            find_type(types, names, &t.element).is_some()
        },
        AnyType::Range(t) => {
            proof {
                assert(any_type.references()[0] == t.element);
            }
            find_type(types, names, &t.element).is_some()
        },
        AnyType::Mapping(t) => {
            let b = find_type(types, names, &t.key).is_some() && find_type(
                types,
                names,
                &t.value,
            ).is_some();
            proof {
                let refs = any_type.references();
                if !b {
                    assert(refs[0] == t.key && refs[1] == t.value);
                }
            }
            b
        },
        AnyType::RootMap(t) => {
            let b = find_type(types, names, &t.root).is_some() && find_type(
                types,
                names,
                &t.key,
            ).is_some() && find_type(types, names, &t.value).is_some();
            proof {
                let refs = any_type.references();
                if !b {
                    assert(refs[0] == t.root && refs[1] == t.key && refs[2] == t.value);
                }
            }
            b
        },
        AnyType::Struct(t) => {
            let mut index: usize = 0;
            while index < t.fields.len()
                invariant
                    index <= t.fields@.len(),
                    *any_type == AnyType::Struct(*t),
                    forall|k: int|
                        0 <= k < index ==> points_at_type(
                            types@,
                            names@,
                            #[trigger] any_type.references()[k],
                        ),
                decreases t.fields@.len() - index,
            {
                if find_type(types, names, &t.fields.as_slice()[index].type_ref).is_none() {
                    proof {
                        assert(any_type.references()[index as int] == t.fields@[index as int].type_ref);
                    }
                    return false;
                }
                proof {
                    assert(any_type.references()[index as int] == t.fields@[index as int].type_ref);
                }
                index += 1;
            }
            true
        },
        AnyType::Enum(t) => {
            let ghost p = |r: TypeRef| points_at_type(types@, names@, r);
            proof {
                crate::schema::any_type::lemma_variant_references_all(*t, 0, p);
            }
            let mut ordinal: usize = 0;
            while ordinal < t.variants.len()
                invariant
                    ordinal <= t.variants@.len(),
                    p == |r: TypeRef| points_at_type(types@, names@, r),
                    forall|v: int, k: int|
                        0 <= v < ordinal && 0 <= k < t.variants@[v].values@.len() ==> p(
                            #[trigger] t.variants@[v].values@[k],
                        ),
                    (forall|j: int|
                        0 <= j < variant_references(*t, 0).len() ==> p(
                            #[trigger] variant_references(*t, 0)[j],
                        )) <==> (forall|v: int, k: int|
                        0 <= v < t.variants@.len() && 0 <= k < t.variants@[v].values@.len() ==> p(
                            #[trigger] t.variants@[v].values@[k],
                        )),
                    *any_type == AnyType::Enum(*t),
                decreases t.variants@.len() - ordinal,
            {
                if !row_found(types, names, t.variants.as_slice()[ordinal].values.as_slice()) {
                    proof {
                        let k = choose|k: int|
                            0 <= k < t.variants@[ordinal as int].values@.len() && !points_at_type(
                                types@,
                                names@,
                                #[trigger] t.variants@[ordinal as int].values@[k],
                            );
                        assert(!p(t.variants@[ordinal as int].values@[k]));
                        let all = variant_references(*t, 0);
                        let j = choose|j: int| 0 <= j < all.len() && !p(#[trigger] all[j]);
                        assert(any_type.references()[j] == all[j]);
                        assert(!points_at_type(types@, names@, any_type.references()[j]));
                    }
                    return false;
                }
                proof {
                    assert forall|k: int|
                        0 <= k < t.variants@[ordinal as int].values@.len() implies p(
                        #[trigger] t.variants@[ordinal as int].values@[k],
                    ) by {
                        assert(points_at_type(
                            types@,
                            names@,
                            t.variants@[ordinal as int].values@[k],
                        ));
                    }
                }
                ordinal += 1;
            }
            proof {
                assert forall|j: int| 0 <= j < any_type.references().len() implies points_at_type(
                    types@,
                    names@,
                    #[trigger] any_type.references()[j],
                ) by {
                    assert(p(variant_references(*t, 0)[j]));
                }
            }
            true
        },
        _ => true,
    }
}

impl TypeContainer {
    /// What validation reads of this schema.
    pub open spec fn env(&self, strict: bool) -> Env {
        Env { types: self.types@, names: name_texts(self.names@), strict }
    }

    /// The reference of the root type.
    pub fn root(&self) -> (r: &TypeRef)
        ensures
            *r == self.root,
    {
        &self.root
    }

    /// The type that a reference points at; nothing where it points at none.
    pub fn maybe_type(&self, reference: &TypeRef) -> (r: Option<&AnyType>)
        ensures
            match r {
                Some(t) => found(self.types@, self.names@, reference.target()) == Some(*t),
                None => found(self.types@, self.names@, reference.target()) is None,
            },
    {
        find_type(&self.types, &self.names, reference)
    }

    /// The type that a reference points at; an error of the kind `Reference`
    /// where it points at none.
    pub fn resolve(&self, reference: &TypeRef) -> (r: Result<&AnyType, LqError>)
        ensures
            match r {
                Ok(t) => found(self.types@, self.names@, reference.target()) == Some(*t),
                Err(e) => found(self.types@, self.names@, reference.target()) is None && e.kind
                    == ErrorKind::Reference,
            },
    {
        match self.maybe_type(reference) {
            Some(t) => Ok(t),
            None => LqError::err_new(ErrorKind::Reference, "Unknown type reference"),
        }
    }

    /// The number of types.
    pub fn len(&self) -> (n: usize)
        ensures
            n == self.types@.len(),
    {
        self.types.len()
    }
}

impl SchemaBuilder {
    /// A builder without types.
    pub fn new() -> (b: Self)
        ensures
            b.types@.len() == 0,
            b.names@.len() == 0,
    {
        SchemaBuilder { types: Vec::new(), names: Vec::new() }
    }

    /// Adds a type under a name and gives the reference to it: its index.
    /// An error, and no change, where the name is no identifier (`Schema`),
    /// is taken already (`Schema`), or the table is full (`Schema`).
    pub fn add(&mut self, id: &str, any_type: AnyType) -> (r: Result<TypeRef, LqError>)
        ensures
            match r {
                Ok(reference) => {
                    &&& crate::identifier::identifier_text_valid(id@)
                    &&& name_index(name_texts(old(self).names@), id@, 0) is None
                    &&& reference == TypeRef::Numerical(old(self).types@.len() as u32)
                    &&& old(self).types@.len() < u32::MAX
                    &&& final(self).types@ == old(self).types@.push(any_type)
                    &&& name_texts(final(self).names@) == name_texts(old(self).names@).push(id@)
                },
                Err(e) => {
                    &&& e.kind == ErrorKind::Schema
                    &&& *final(self) == *old(self)
                    &&& !crate::identifier::identifier_text_valid(id@) || name_index(
                        name_texts(old(self).names@),
                        id@,
                        0,
                    ) is Some || old(self).types@.len() >= u32::MAX
                },
            },
    {
        let name = StrIdentifier::try_from(id.to_owned())?;
        if find_name(&self.names, &name).is_some() {
            return LqError::err_new(ErrorKind::Schema, "A type with this name exists already");
        }
        let index = self.types.len();
        if index >= u32::MAX as usize {
            return LqError::err_new(ErrorKind::Schema, "Too many types");
        }
        let ghost before = name_texts(self.names@);
        self.types.push(any_type);
        self.names.push(name);
        proof {
            assert(name_texts(self.names@) =~= before.push(id@));
        }
        Ok(TypeRef::Numerical(index as u32))
    }

    /// The schema of the collected types with the given root; an error of
    /// the kind `Reference` where the root or a reference of a type points
    /// at no type.
    pub fn finish(self, root: TypeRef) -> (r: Result<TypeContainer, LqError>)
        ensures
            match r {
                Ok(schema) => schema.types == self.types && schema.names == self.names
                    && schema.root == root && closed(schema.env(false), root.target()),
                Err(e) => e.kind == ErrorKind::Reference && !closed(
                    Env { types: self.types@, names: name_texts(self.names@), strict: false },
                    root.target(),
                ),
            },
    {
        let ghost env = Env { types: self.types@, names: name_texts(self.names@), strict: false };
        if find_type(&self.types, &self.names, &root).is_none() {
            return LqError::err_new(ErrorKind::Reference, "The root points at no type");
        }
        let mut index: usize = 0;
        while index < self.types.len()
            invariant
                index <= self.types@.len(),
                env == (Env { types: self.types@, names: name_texts(self.names@), strict: false }),
                closed_up_to(env, index as int),
            decreases self.types.len() - index,
        {
            if !all_found(&self.types[index], &self.types, &self.names) {
                proof {
                    let any_type = self.types@[index as int];
                    let j = choose|j: int|
                        0 <= j < any_type.references().len() && !points_at_type(
                            self.types@,
                            self.names@,
                            #[trigger] any_type.references()[j],
                        );
                    assert(resolve_index(env, env.types[index as int].references()[j].target())
                        is None);
                }
                return LqError::err_new(
                    ErrorKind::Reference,
                    "A type holds a reference that points at no type",
                );
            }
            proof {
                let any_type = self.types@[index as int];
                assert forall|j: int| 0 <= j < any_type.references().len() implies resolve_index(
                    env,
                    (#[trigger] any_type.references()[j]).target(),
                ) is Some by {
                    assert(points_at_type(self.types@, self.names@, any_type.references()[j]));
                }
            }
            index += 1;
        }
        Ok(TypeContainer { types: self.types, names: self.names, root })
    }
}

} // verus!
