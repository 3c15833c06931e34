//! The catalogue of object models, indexed by object id and version.
use vstd::prelude::*;
use std::collections::HashMap;
use crate::core_link::CoreLink;
use crate::err::{ModelNotFoundError, ObjectParserError};
use crate::model::{ObjectModel, ObjectModelView, ResourceModel};
use crate::version::{lemma_key_injective, Version};
use crate::text::{chars_of, is_digit};
use crate::xml::{
    attribute_of, lemma_listed_resource_kept, lemma_object_resources, object_of,
    object_steps, parse_model, XmlElement,
};
use crate::text::unsigned_value;

verus! {

/// What a lookup found: an object, or one resource of an object.
#[derive(Debug)]
pub enum Model<'a> {
    Object(&'a ObjectModel),
    Resource(&'a ResourceModel),
}

/// The versions of one object, keyed by the version's key.
#[derive(Debug)]
pub struct ObjectModelVersions {
    versions: HashMap<u16, ObjectModel>,
}

/// Object models by object id and version. Storing a model under an id and
/// version that are already present replaces the earlier one.
#[derive(Debug)]
pub struct ObjectModelStore {
    models: HashMap<u16, ObjectModelVersions>,
}

/// Whether a file, by its name, holds an object descriptor: the name ends
/// in `.xml`, and what comes before is digits, `-` and `_` only.
pub open spec fn is_descriptor_file_name(name: Seq<char>) -> bool {
    name.len() >= 4 && name.subrange(name.len() - 4, name.len() as int) == seq!['.', 'x', 'm', 'l']
        && forall|i: int|
        0 <= i < name.len() - 4 ==> is_digit(#[trigger] name[i]) || name[i] == '-' || name[i]
            == '_'
}

/// Whether a file, by its name, holds an object descriptor.
pub fn descriptor_file_name(name: &str) -> (r: bool)
    ensures
        r == is_descriptor_file_name(name@),
{
    let v = chars_of(name);
    let n = v.len();
    if n < 4 {
        return false;
    }
    if !(v[n - 4] == '.' && v[n - 3] == 'x' && v[n - 2] == 'm' && v[n - 1] == 'l') {
        assert(name@.subrange(n - 4, n as int)[0] == v@[n - 4]);
        assert(name@.subrange(n - 4, n as int)[1] == v@[n - 3]);
        assert(name@.subrange(n - 4, n as int)[2] == v@[n - 2]);
        assert(name@.subrange(n - 4, n as int)[3] == v@[n - 1]);
        return false;
    }
    assert(name@.subrange(n - 4, n as int) =~= seq!['.', 'x', 'm', 'l']);
    let mut i: usize = 0;
    while i < n - 4
        invariant
            n == v@.len() >= 4,
            v@ == name@,
            i <= n - 4,
            forall|j: int| 0 <= j < i ==> is_digit(#[trigger] v@[j]) || v@[j] == '-' || v@[j] == '_',
        decreases n - 4 - i,
    {
        let c = v[i];
        if !(('0' <= c && c <= '9') || c == '-' || c == '_') {
            return false;
        }
        i = i + 1;
    }
    true
}

/// The model a descriptor yields, or why it yields none.
pub open spec fn model_of_descriptor(o: Option<XmlElement>) -> Result<ObjectModelView, Seq<char>> {
    match o {
        Some(e) => object_of(e),
        None => Err("No Object found in file"@),
    }
}

/// The catalogue `base` after reading the first `n` descriptors in order
/// into it, or the error of the first descriptor that fails.
pub open spec fn load_into(
    base: Map<(u16, Version), ObjectModelView>,
    objs: Seq<Option<XmlElement>>,
    n: nat,
) -> Result<Map<(u16, Version), ObjectModelView>, Seq<char>>
    decreases n,
{
    if n == 0 {
        Ok(base)
    } else {
        match load_into(base, objs, (n - 1) as nat) {
            Ok(m) => if n <= objs.len() {
                match model_of_descriptor(objs[n - 1]) {
                    Ok(v) => Ok(m.insert((v.id, v.version), v)),
                    Err(e) => Err(e),
                }
            } else {
                Ok(m)
            },
            Err(e) => Err(e),
        }
    }
}

proof fn lemma_load_stays_failed(
    base: Map<(u16, Version), ObjectModelView>,
    objs: Seq<Option<XmlElement>>,
    i: nat,
    n: nat,
)
    requires
        i <= n,
        load_into(base, objs, i) is Err,
    ensures
        load_into(base, objs, n) == load_into(base, objs, i),
    decreases n - i,
{
    if i < n {
        lemma_load_stays_failed(base, objs, i, (n - 1) as nat);
    }
}

proof fn lemma_load_prefix_ok(
    base: Map<(u16, Version), ObjectModelView>,
    objs: Seq<Option<XmlElement>>,
    j: int,
    n: nat,
)
    requires
        load_into(base, objs, n) is Ok,
        0 <= j < n <= objs.len(),
    ensures
        load_into(base, objs, j as nat) is Ok,
        load_into(base, objs, (j + 1) as nat) is Ok,
        model_of_descriptor(objs[j]) is Ok,
{
    if load_into(base, objs, (j + 1) as nat) is Err {
        lemma_load_stays_failed(base, objs, (j + 1) as nat, n);
    }
}

proof fn lemma_load_keeps(
    base: Map<(u16, Version), ObjectModelView>,
    objs: Seq<Option<XmlElement>>,
    j: int,
    n: nat,
)
    requires
        load_into(base, objs, n) is Ok,
        0 <= j < n <= objs.len(),
        model_of_descriptor(objs[j]) is Ok,
        forall|k: int|
            j < k < n && (#[trigger] model_of_descriptor(objs[k])) is Ok ==> ((model_of_descriptor(
                objs[k],
            ))->Ok_0.id, (model_of_descriptor(objs[k]))->Ok_0.version) != ((model_of_descriptor(
                objs[j],
            ))->Ok_0.id, (model_of_descriptor(objs[j]))->Ok_0.version),
    ensures
        ({
            let v = (model_of_descriptor(objs[j]))->Ok_0;
            let m = (load_into(base, objs, n))->Ok_0;
            m.contains_key((v.id, v.version)) && m[(v.id, v.version)] == v
        }),
    decreases n,
{
    lemma_load_prefix_ok(base, objs, j, n);
    if n > j + 1 {
        lemma_load_prefix_ok(base, objs, n - 1, n);
        lemma_load_keeps(base, objs, j, (n - 1) as nat);
    }
}

/// Every resource `Item` that a loaded descriptor lists can be found in the
/// catalogue under its `ID`, with that id: when the load succeeds, the
/// object the `j`-th descriptor describes is stored under its id and
/// version (unless a later descriptor has the same id and version), and
/// the `i`-th child of its last `Resources` element, an `Item`, is one of
/// its resources, filed under its `ID`, whose id is that `ID`.
pub proof fn lemma_loaded_item_found(objs: Seq<Option<XmlElement>>, j: int, r: int, i: int)
    requires
        load_into(Map::empty(), objs, objs.len()) is Ok,
        0 <= j < objs.len(),
        objs[j] is Some,
        0 <= r < objs[j].unwrap().children@.len(),
        objs[j].unwrap().children@[r].name@ == "Resources"@,
        forall|k: int|
            r < k < objs[j].unwrap().children@.len() ==> (
            #[trigger] objs[j].unwrap().children@[k]).name@ != "Resources"@,
        0 <= i < objs[j].unwrap().children@[r].children@.len(),
        objs[j].unwrap().children@[r].children@[i].name@ == "Item"@,
        forall|k: int|
            j < k < objs.len() && (#[trigger] model_of_descriptor(objs[k])) is Ok ==> ((model_of_descriptor(
                objs[k],
            ))->Ok_0.id, (model_of_descriptor(objs[k]))->Ok_0.version) != ((model_of_descriptor(
                objs[j],
            ))->Ok_0.id, (model_of_descriptor(objs[j]))->Ok_0.version),
    ensures
        ({
            let m = (load_into(Map::empty(), objs, objs.len()))->Ok_0;
            let v = (model_of_descriptor(objs[j]))->Ok_0;
            let item = objs[j].unwrap().children@[r].children@[i];
            let rid = unsigned_value(attribute_of(item.attributes@, "ID"@).unwrap()@) as u16;
            &&& m.contains_key((v.id, v.version))
            &&& m[(v.id, v.version)].resources.contains_key(rid)
            &&& m[(v.id, v.version)].resources[rid].id == rid
        }),
{
    let e = objs[j].unwrap();
    lemma_load_prefix_ok(Map::empty(), objs, j, objs.len());
    assert(object_steps(e.children@, e.children@.len()) is Ok);
    lemma_object_resources(e.children@, r, e.children@.len());
    let items = e.children@[r].children@;
    lemma_listed_resource_kept(items, i);
    lemma_load_keeps(Map::empty(), objs, j, objs.len());
}

impl View for ObjectModelStore {
    type V = Map<(u16, Version), ObjectModelView>;

    closed spec fn view(&self) -> Map<(u16, Version), ObjectModelView> {
        Map::new(
            |k: (u16, Version)|
                self.models@.contains_key(k.0) && self.models@[k.0].versions@.contains_key(
                    k.1.key(),
                ),
            |k: (u16, Version)| self.models@[k.0].versions@[k.1.key()]@,
        )
    }
}

impl ObjectModelStore {
    /// Each object's versions are non-empty, each model is filed under its
    /// own id and version, and each model files its resources under their
    /// ids.
    pub closed spec fn wf(&self) -> bool {
        forall|id: u16| #[trigger]
            self.models@.contains_key(id) ==> {
                let vs = self.models@[id].versions@;
                &&& vs.dom().len() > 0 && vs.dom().finite()
                &&& forall|k: u16| #[trigger]
                    vs.contains_key(k) ==> vs[k].id == id && vs[k].version.key() == k
                        && vs[k].wf()
            }
    }

    /// Whether some version of the object is present.
    pub open spec fn has_object(&self, id: u16) -> bool {
        exists|v: Version| self@.contains_key((id, v))
    }

    proof fn lemma_view_at(&self, id: u16, v: Version)
        requires
            self.wf(),
            self.models@.contains_key(id),
            self.models@[id].versions@.contains_key(v.key()),
        ensures
            self@.contains_key((id, v)),
            self@[(id, v)] == self.models@[id].versions@[v.key()]@,
    {
    }

    proof fn lemma_has_object(&self, id: u16)
        requires
            self.wf(),
        ensures
            self.has_object(id) == self.models@.contains_key(id),
    {
        if self.models@.contains_key(id) {
            let vs = self.models@[id].versions@;
            let k = vs.dom().choose();
            assert(vs.contains_key(k));
            let v = vs[k].version;
            assert(self@.contains_key((id, v)));
        }
    }

    /// An empty catalogue.
    pub fn empty() -> (r: Self)
        ensures
            r.wf(),
            r@ == Map::<(u16, Version), ObjectModelView>::empty(),
    {
        let r = ObjectModelStore { models: HashMap::new() };
        assert(r@ =~= Map::<(u16, Version), ObjectModelView>::empty());
        r
    }

    /// Files a model under its id and version, replacing any model already
    /// there.
    pub fn insert_model(&mut self, model: ObjectModel)
        requires
            old(self).wf(),
            model.wf(),
        ensures
            final(self).wf(),
            final(self)@ == old(self)@.insert((model.id, model.version), model@),
    {
        let ghost m = model@;
        let id = model.id;
        let key = model.version.key_of();
        let ghost before = self@;
        match self.models.remove(&id) {
            Some(mut vs) => {
                vs.versions.insert(key, model);
                self.models.insert(id, vs);
            },
            None => {
                let mut versions = HashMap::new();
                versions.insert(key, model);
                self.models.insert(id, ObjectModelVersions { versions });
            },
        }
        assert forall|i: u16| #[trigger] self.models@.contains_key(i) implies {
            let vs = self.models@[i].versions@;
            &&& vs.dom().len() > 0 && vs.dom().finite()
            &&& forall|k: u16| #[trigger]
                vs.contains_key(k) ==> vs[k].id == i && vs[k].version.key() == k && vs[k].wf()
        } by {
            let vs = self.models@[i].versions@;
            if i == id {
                assert(vs.contains_key(key));
                assert(vs.dom().contains(key));
                vstd::set_lib::lemma_set_empty_equivalency_len(vs.dom());
            }
        }
        assert forall|k: (u16, Version)| #[trigger] self@.contains_key(k) <==> before.insert(
            (id, m.version),
            m,
        ).contains_key(k) by {
            if k.1.key() == key {
                lemma_key_injective(k.1, m.version);
            }
        }
        assert forall|k: (u16, Version)| #[trigger] self@.contains_key(k) implies self@[k]
            == before.insert((id, m.version), m)[k] by {
            if k.1.key() == key {
                lemma_key_injective(k.1, m.version);
            }
        }
        assert(self@ =~= before.insert((id, m.version), m));
    }

    /// Reads the descriptors in order into a new catalogue; the first
    /// descriptor that fails fails the whole load.
    pub fn new(objects: &Vec<Option<XmlElement>>) -> (r: Result<Self, ObjectParserError>)
        ensures
            match (r, load_into(Map::empty(), objects@, objects@.len())) {
                (Ok(s), Ok(m)) => s.wf() && s@ == m,
                (Err(e), Err(msg)) => e.message_view() == msg,
                _ => false,
            },
    {
        let mut store = ObjectModelStore::empty();
        match store.add_models(objects) {
            Ok(()) => Ok(store),
            Err(e) => Err(e),
        }
    }

    /// Reads more descriptors into the catalogue. Models read later replace
    /// earlier ones with the same id and version; if any descriptor fails,
    /// the catalogue is left as it was.
    pub fn add_models(&mut self, objects: &Vec<Option<XmlElement>>) -> (r: Result<
        (),
        ObjectParserError,
    >)
        requires
            old(self).wf(),
        ensures
            final(self).wf(),
            match (r, load_into(old(self)@, objects@, objects@.len())) {
                (Ok(_), Ok(m)) => final(self)@ == m,
                (Err(e), Err(msg)) => e.message_view() == msg && final(self)@ == old(self)@,
                _ => false,
            },
    {
        let ghost base = self@;
        let n = objects.len();
        let mut models: Vec<ObjectModel> = Vec::new();
        let mut i: usize = 0;
        while i < n
            invariant
                n == objects@.len(),
                i <= n,
                models@.len() == i,
                self.wf(),
                self@ == base,
                load_into(base, objects@, i as nat) is Ok,
                forall|j: int|
                    0 <= j < i ==> model_of_descriptor(objects@[j]) == Ok::<
                        ObjectModelView,
                        Seq<char>,
                    >((#[trigger] models@[j])@) && models@[j].wf(),
            decreases n - i,
        {
            let parsed = match &objects[i] {
                Some(e) => parse_model(Some(e)),
                None => parse_model(None),
            };
            match parsed {
                Ok(model) => {
                    models.push(model);
                },
                Err(e) => {
                    proof {
                        lemma_load_stays_failed(base, objects@, (i + 1) as nat, n as nat);
                    }
                    return Err(e);
                },
            }
            i = i + 1;
        }
        let mut k: usize = 0;
        let mut rest = models;
        let ghost all = rest@;
        while k < n
            invariant
                n == objects@.len() == all.len(),
                k <= n,
                rest@ == all.skip(k as int),
                forall|j: int|
                    0 <= j < n ==> model_of_descriptor(objects@[j]) == Ok::<
                        ObjectModelView,
                        Seq<char>,
                    >((#[trigger] all[j])@) && all[j].wf(),
                self.wf(),
                load_into(base, objects@, k as nat) == Ok::<
                    Map<(u16, Version), ObjectModelView>,
                    Seq<char>,
                >(self@),
            decreases n - k,
        {
            assert(rest@[0] == all[k as int]);
            let model = rest.remove(0);
            assert(rest@ =~= all.skip(k + 1));
            self.insert_model(model);
            k = k + 1;
        }
        Ok(())
    }

    /// Looks up the model that a path names, in the version asked for, or
    /// in version `1.0` when none is.
    pub fn get_model(&self, link: CoreLink, version: Option<Version>) -> (r: Result<
        Model<'_>,
        ModelNotFoundError,
    >)
        requires
            self.wf(),
        ensures
            ({
                let id = link.object_id;
                let ver = match version {
                    Some(v) => v,
                    None => Version::default_spec(),
                };
                match r {
                    Ok(Model::Object(m)) => link.resource_id is None && self@.contains_key(
                        (id, ver),
                    ) && m@ == self@[(id, ver)],
                    Ok(Model::Resource(m)) => link.resource_id is Some && self@.contains_key(
                        (id, ver),
                    ) && self@[(id, ver)].resources.contains_key(link.resource_id.unwrap())
                        && *m == self@[(id, ver)].resources[link.resource_id.unwrap()],
                    Err(ModelNotFoundError::ObjectId(l)) => !self.has_object(id) && l == link,
                    Err(ModelNotFoundError::Version { version: v, link: l }) => self.has_object(
                        id,
                    ) && !self@.contains_key((id, ver)) && v == ver && l == link,
                    Err(ModelNotFoundError::ResourceId(l)) => self@.contains_key((id, ver))
                        && link.resource_id is Some && !self@[(id, ver)].resources.contains_key(
                        link.resource_id.unwrap(),
                    ) && l == link,
                }
            }),
    {
        proof {
            self.lemma_has_object(link.object_id);
        }
        let versions = match self.models.get(&link.object_id) {
            Some(vs) => vs,
            None => {
                return Err(ModelNotFoundError::ObjectId(link));
            },
        };
        let ver = match version {
            Some(v) => v,
            None => Version::default(),
        };
        let model = match versions.versions.get(&ver.key_of()) {
            Some(m) => m,
            None => {
                return Err(ModelNotFoundError::Version { version: ver, link });
            },
        };
        proof {
            self.lemma_view_at(link.object_id, ver);
        }
        match link.resource_id {
            None => Ok(Model::Object(model)),
            Some(rid) => match model.resource(rid) {
                Some(res) => Ok(Model::Resource(res)),
                None => Err(ModelNotFoundError::ResourceId(link)),
            },
        }
    }
}

/// Every model in the catalogue is filed under its own id and version: a
/// lookup of an object by the id and version it is stored under yields a
/// model with that id and that version.
pub proof fn lemma_stored_object_found(store: &ObjectModelStore, id: u16, v: Version)
    requires
        store.wf(),
        store@.contains_key((id, v)),
    ensures
        store@[(id, v)].id == id,
        store@[(id, v)].version == v,
{
    let vs = store.models@[id].versions@;
    assert(vs.contains_key(v.key()));
    lemma_key_injective(vs[v.key()].version, v);
}

/// Every resource of a stored model is filed under its own id: a lookup of
/// a resource of a stored object yields the resource with that id.
pub proof fn lemma_stored_resource_found(store: &ObjectModelStore, id: u16, v: Version, rid: u16)
    requires
        store.wf(),
        store@.contains_key((id, v)),
        store@[(id, v)].resources.contains_key(rid),
    ensures
        store@[(id, v)].resources[rid].id == rid,
{
    let vs = store.models@[id].versions@;
    assert(vs.contains_key(v.key()));
    assert(vs[v.key()].wf());
}

} // verus!
