//! The router: one engine for each language, made when it is first asked
//! for.

use vstd::prelude::*;
use std::sync::Arc;
use crate::engine::detect::group_views;
use crate::engine::store::random_state;
use crate::engine::insert::batch_put;
use crate::engine::Engine;
use crate::node::{IndexedNode, NodeView};
use crate::language_id::{get_language_id_by_path, language_of_path};
use crate::languages::{is_supported, SupportedLanguage};

verus! {

/// The engines that the map holds, by language identifier.
pub uninterp spec fn engines_of(m: dashmap::DashMap<String, Engine, ahash::RandomState>) -> Map<
    Seq<char>,
    Engine,
>;

/// Trusted: `DashMap::with_hasher` makes an empty map.
#[verifier::external_body]
fn engines_new(state: ahash::RandomState) -> (m: dashmap::DashMap<
    String,
    Engine,
    ahash::RandomState,
>)
    ensures
        engines_of(m) =~= Map::empty(),
{
    dashmap::DashMap::with_hasher(state)
}

/// Trusted: `DashMap::insert` puts the value under the key, in place of what
/// was there.
#[verifier::external_body]
fn engines_insert(
    m: &mut dashmap::DashMap<String, Engine, ahash::RandomState>,
    language_id: String,
    engine: Engine,
)
    ensures
        engines_of(*final(m)) == engines_of(*old(m)).insert(language_id@, engine),
{
    m.insert(language_id, engine);
}

/// Trusted: `DashMap::remove` takes the entry of the key out and returns it,
/// if there is one, and leaves the other entries as they are.
#[verifier::external_body]
fn engines_remove(m: &mut dashmap::DashMap<String, Engine, ahash::RandomState>, language_id: &str) -> (taken:
    Option<Engine>)
    ensures
        engines_of(*final(m)) == engines_of(*old(m)).remove(language_id@),
        taken is Some <==> engines_of(*old(m)).dom().contains(language_id@),
        taken matches Some(engine) ==> engine == engines_of(*old(m))[language_id@],
{
    m.remove(language_id).map(|entry| entry.1)
}

/// Trusted: `DashMap::iter` visits every entry once; the wrapper hands out
/// the keys, in the order of the visit, of which nothing is known.
#[verifier::external_body]
fn engines_ids(m: &dashmap::DashMap<String, Engine, ahash::RandomState>) -> (ids: Vec<String>)
    ensures
        forall|i: int| 0 <= i < ids@.len() ==> engines_of(*m).dom().contains(#[trigger] ids@[i]@),
        forall|id: Seq<char>| #[trigger]
            engines_of(*m).dom().contains(id) ==> exists|i: int|
                0 <= i < ids@.len() && #[trigger] ids@[i]@ == id,
        forall|i: int, j: int|
            0 <= i < j < ids@.len() ==> (#[trigger] ids@[i])@ != (#[trigger] ids@[j])@,
{
    m.iter().map(|entry| entry.key().clone()).collect()
}

/// Trusted: `DashMap::contains_key` tells whether the map has an entry of
/// the key.
#[verifier::external_body]
fn engines_contains(m: &dashmap::DashMap<String, Engine, ahash::RandomState>, language_id: &str) -> (found:
    bool)
    ensures
        found == engines_of(*m).dom().contains(language_id@),
{
    m.contains_key(language_id)
}

/// Trusted: `DashMap::clear` takes every entry out.
#[verifier::external_body]
fn engines_clear(m: &mut dashmap::DashMap<String, Engine, ahash::RandomState>)
    ensures
        engines_of(*final(m)) =~= Map::empty(),
{
    m.clear();
}

/// `group` is a clone group of `engine`: the members under one fingerprint
/// that lie below no member of a group of two or more.
pub open spec fn is_group_of(engine: Engine, group: Seq<NodeView>) -> bool {
    group.len() >= 2 && engine.reported(engine.fingerprint_of(group)) && group
        == engine.survivors(engine.fingerprint_of(group))
}

/// `group` is a clone group of one of `engines`.
pub open spec fn is_group_of_one(engines: Map<Seq<char>, Engine>, group: Seq<NodeView>) -> bool {
    exists|id: Seq<char>| #[trigger] engines.dom().contains(id) && is_group_of(engines[id], group)
}

/// The answers of `parts`, one after the other.
pub open spec fn joined(parts: Seq<Seq<Seq<NodeView>>>) -> Seq<Seq<NodeView>>
    decreases parts.len(),
{
    if parts.len() == 0 {
        Seq::empty()
    } else {
        joined(parts.drop_last()) + parts.last()
    }
}

/// `ids` names every engine once, and `parts` holds for each of them, in
/// that order, an answer of the engine to the duplicate query with the cap
/// `limit`.
pub open spec fn reports_of(
    engines: Map<Seq<char>, Engine>,
    ids: Seq<Seq<char>>,
    parts: Seq<Seq<Seq<NodeView>>>,
    limit: Option<usize>,
) -> bool {
    &&& ids.len() == parts.len()
    &&& ids.no_duplicates()
    &&& forall|k: int|
        0 <= k < ids.len() ==> engines.dom().contains(#[trigger] ids[k]) && engines[ids[k]].is_report(
            parts[k],
            limit,
        )
    &&& forall|id: Seq<char>| #[trigger] engines.dom().contains(id) ==> ids.contains(id)
}

/// `groups` is, engine by engine in some order, an answer of each engine to
/// the duplicate query with the cap `limit`.
pub open spec fn is_joint_report(
    engines: Map<Seq<char>, Engine>,
    groups: Seq<Seq<NodeView>>,
    limit: Option<usize>,
) -> bool {
    exists|ids: Seq<Seq<char>>, parts: Seq<Seq<Seq<NodeView>>>|
        #[trigger] reports_of(engines, ids, parts, limit) && groups == joined(parts)
}

/// The trees of the engine of a language; none where there is no engine.
pub open spec fn trees_under(engines: Map<Seq<char>, Engine>, id: Seq<char>) -> Map<
    Seq<char>,
    Seq<NodeView>,
> {
    if engines.dom().contains(id) {
        engines[id].trees()
    } else {
        Map::empty()
    }
}

/// `after` holds what `before` held and an engine of the language `id`: the
/// engine that `before` had, or a new one without a file.
pub open spec fn with_engine_of(
    before: Map<Seq<char>, Engine>,
    after: Map<Seq<char>, Engine>,
    id: Seq<char>,
) -> bool {
    &&& after.dom() =~= before.dom().insert(id)
    &&& forall|other: Seq<char>| #[trigger]
        before.dom().contains(other) ==> after[other] == before[other]
    &&& !before.dom().contains(id) ==> after[id].trees() =~= Map::empty()
}

/// `after` holds what `before` held and an engine of the language `id`, and
/// is as `before` for every other language.
pub open spec fn changed_at(
    before: Map<Seq<char>, Engine>,
    after: Map<Seq<char>, Engine>,
    id: Seq<char>,
) -> bool {
    &&& after.dom() =~= before.dom().insert(id)
    &&& forall|other: Seq<char>|
        other != id && #[trigger] before.dom().contains(other) ==> after[other] == before[other]
    &&& before.dom().contains(id) ==> after[id].language() == before[id].language()
}

/// The engines of a server, by language identifier.
pub struct Router {
    engines: dashmap::DashMap<String, Engine, ahash::RandomState>,
}

impl Router {
    /// The engines, by language identifier.
    pub closed spec fn engine_map(&self) -> Map<Seq<char>, Engine> {
        engines_of(self.engines)
    }

    /// Every engine is consistent and stands under the identifier of its
    /// language.
    pub open spec fn wf(&self) -> bool {
        forall|id: Seq<char>| #[trigger]
            self.engine_map().dom().contains(id) ==> self.engine_map()[id].wf()
                && self.engine_map()[id].language().id() == id
    }

    /// A router without an engine.
    pub fn new() -> (router: Self)
        ensures
            router.wf(),
            router.engine_map() =~= Map::empty(),
    {
        Router { engines: engines_new(random_state()) }
    }

    /// The identifiers of the languages that have an engine, each once, in
    /// no particular order.
    pub fn engines(&self) -> (ids: Vec<String>)
        ensures
            forall|i: int| 0 <= i < ids@.len() ==> self.engine_map().dom().contains(#[trigger] ids@[i]@),
            forall|id: Seq<char>| #[trigger]
                self.engine_map().dom().contains(id) ==> exists|i: int|
                    0 <= i < ids@.len() && #[trigger] ids@[i]@ == id,
            forall|i: int, j: int|
                0 <= i < j < ids@.len() ==> (#[trigger] ids@[i])@ != (#[trigger] ids@[j])@,
    {
        engines_ids(&self.engines)
    }

    /// Takes the engine of a language out, to be put back by `put`.
    fn take(&mut self, language_id: &str) -> (engine: Option<Engine>)
        ensures
            final(self).engine_map() == old(self).engine_map().remove(language_id@),
            engine is Some <==> old(self).engine_map().dom().contains(language_id@),
            engine matches Some(e) ==> e == old(self).engine_map()[language_id@],
    {
        engines_remove(&mut self.engines, language_id)
    }

    /// Puts an engine in, under the identifier of its language.
    fn put(&mut self, engine: Engine)
        ensures
            final(self).engine_map() == old(self).engine_map().insert(
                engine.language().id(),
                engine,
            ),
    {
        let id = engine.language_id().to_owned();
        engines_insert(&mut self.engines, id, engine);
    }

    /// Makes sure that the router holds the engine of a language, and gives
    /// the key under which it holds it, which is the language identifier.
    /// The engine is made, without a file, where the router has none; from
    /// then on the router holds it, with all that is put into it. There is
    /// no engine for a language without a profile.
    pub fn get_engine_by_language_id(&mut self, language_id: &str) -> (key: Option<&'static str>)
        requires
            old(self).wf(),
        ensures
            final(self).wf(),
            key is Some <==> is_supported(language_id@),
            key matches Some(k) ==> k@ == language_id@,
            key is None ==> final(self).engine_map() == old(self).engine_map(),
            key is Some ==> with_engine_of(
                old(self).engine_map(),
                final(self).engine_map(),
                language_id@,
            ),
    {
        if engines_contains(&self.engines, language_id) {
            assert(self.engine_map()[language_id@].language().id() == language_id@);
            if crate::text::str_eq(language_id, "python") {
                Some("python")
            } else {
                Some("rust")
            }
        } else {
            match SupportedLanguage::from_language_id(language_id) {
                Some(language) => {
                    let engine = Engine::new(language);
                    let key = engine.language_id();
                    self.put(engine);
                    Some(key)
                },
                None => None,
            }
        }
    }

    /// Makes sure that the router holds the engine of the language of the
    /// file at `path`, of which the caller knows whether it names a file, and
    /// gives the key under which it holds it.
    pub fn get_engine_by_path(&mut self, path: &str, is_file: bool) -> (key: Option<&'static str>)
        requires
            old(self).wf(),
        ensures
            final(self).wf(),
            key is Some <==> is_supported(language_of_path(path@, is_file)),
            key matches Some(k) ==> k@ == language_of_path(path@, is_file),
            key is None ==> final(self).engine_map() == old(self).engine_map(),
            key is Some ==> with_engine_of(
                old(self).engine_map(),
                final(self).engine_map(),
                language_of_path(path@, is_file),
            ),
    {
        self.get_engine_by_language_id(get_language_id_by_path(path, is_file))
    }

    /// Inserts the files of `sources` into the engine of a language, which
    /// is made where the router has none. Nothing happens where there is no
    /// engine for the language.
    pub fn insert_many(&mut self, language_id: &str, sources: Vec<(Arc<String>, Arc<String>)>) -> (done:
        bool)
        requires
            old(self).wf(),
        ensures
            final(self).wf(),
            done <==> is_supported(language_id@),
            !done ==> final(self).engine_map() == old(self).engine_map(),
            done ==> changed_at(old(self).engine_map(), final(self).engine_map(), language_id@),
            done ==> batch_put(
                final(self).engine_map()[language_id@].language(),
                trees_under(old(self).engine_map(), language_id@),
                final(self).engine_map()[language_id@].trees(),
                sources@,
            ),
    {
        match self.get_engine_by_language_id(language_id) {
            Some(key) => {
                match self.take(key) {
                    Some(engine) => {
                        let mut engine = engine;
                        engine.insert_many(sources);
                        self.put(engine);
                        true
                    },
                    None => false,
                }
            },
            None => false,
        }
    }

    /// Removes the files at `paths` from the engine of a language, which is
    /// made where the router has none. Nothing happens where there is no
    /// engine for the language.
    pub fn remove_many(&mut self, language_id: &str, paths: &Vec<String>) -> (done: bool)
        requires
            old(self).wf(),
        ensures
            final(self).wf(),
            done <==> is_supported(language_id@),
            !done ==> final(self).engine_map() == old(self).engine_map(),
            done ==> changed_at(old(self).engine_map(), final(self).engine_map(), language_id@),
            done ==> final(self).engine_map()[language_id@].trees() == trees_under(
                old(self).engine_map(),
                language_id@,
            ).remove_keys(crate::engine::remove::path_set(paths@)),
    {
        match self.get_engine_by_language_id(language_id) {
            Some(key) => {
                match self.take(key) {
                    Some(engine) => {
                        let mut engine = engine;
                        engine.remove_many(paths);
                        self.put(engine);
                        true
                    },
                    None => false,
                }
            },
            None => false,
        }
    }

    /// The clone groups of all engines: of each engine, the answer to the
    /// duplicate query with the cap `limitation`, one answer after the
    /// other.
    pub fn collect_duplicates(&mut self, limitation: Option<usize>) -> (groups: Vec<
        Vec<Arc<IndexedNode>>,
    >)
        requires
            old(self).wf(),
        ensures
            final(self).wf(),
            final(self).engine_map() == old(self).engine_map(),
            is_joint_report(old(self).engine_map(), group_views(groups@), limitation),
            forall|i: int|
                0 <= i < groups@.len() ==> is_group_of_one(
                    old(self).engine_map(),
                    #[trigger] group_views(groups@)[i],
                ),
            limitation is None ==> forall|id: Seq<char>, h: u64|
                old(self).engine_map().dom().contains(id) && #[trigger] old(self).engine_map()[id].reported(
                    h,
                ) ==> group_views(groups@).contains(old(self).engine_map()[id].survivors(h)),
    {
        let ids = self.engines();
        let ghost all = self.engine_map();
        let ghost names = crate::server::navigation::texts(ids@);
        let ghost mut parts: Seq<Seq<Seq<NodeView>>> = Seq::empty();
        let mut groups: Vec<Vec<Arc<IndexedNode>>> = Vec::new();
        let mut at: usize = 0;
        assert(group_views(groups@) =~= joined(parts));
        while at < ids.len()
            invariant
                at <= ids@.len(),
                self.wf(),
                self.engine_map() == all,
                names == crate::server::navigation::texts(ids@),
                forall|i: int| 0 <= i < ids@.len() ==> all.dom().contains(#[trigger] ids@[i]@),
                parts.len() == at,
                group_views(groups@) == joined(parts),
                forall|k: int|
                    0 <= k < at ==> all[names[k]].is_report(#[trigger] parts[k], limitation),
                forall|i: int|
                    0 <= i < groups@.len() ==> is_group_of_one(
                        all,
                        #[trigger] group_views(groups@)[i],
                    ),
                limitation is None ==> forall|k: int, h: u64|
                    0 <= k < at && #[trigger] all[ids@[k]@].reported(h) ==> group_views(
                        groups@,
                    ).contains(all[ids@[k]@].survivors(h)),
            decreases ids@.len() - at,
        {
            let ghost id = ids@[at as int]@;
            assert(names[at as int] == id);
            match self.take(ids[at].as_str()) {
                Some(engine) => {
                    let mut found = engine.detect_duplicates(limitation);
                    let ghost report = group_views(found@);
                    let ghost earlier = group_views(groups@);
                    let ghost old_parts = parts;
                    groups.append(&mut found);
                    self.put(engine);
                    proof {
                        assert(self.engine_map() =~= all);
                        parts = parts.push(report);
                        assert(parts.drop_last() =~= old_parts);
                        let now = group_views(groups@);
                        assert(now =~= earlier + report);
                        assert forall|k: int| 0 <= k < at + 1 implies all[names[k]].is_report(
                            #[trigger] parts[k],
                            limitation,
                        ) by {
                            if k < at {
                                assert(parts[k] == old_parts[k]);
                            }
                        }
                        assert forall|i: int| 0 <= i < now.len() implies is_group_of_one(
                            all,
                            #[trigger] now[i],
                        ) by {
                            if i < earlier.len() {
                                assert(now[i] == earlier[i]);
                            } else {
                                assert(now[i] == report[i - earlier.len()]);
                                assert(all.dom().contains(id) && is_group_of(all[id], now[i]));
                            }
                        }
                        if limitation is None {
                            assert forall|k: int, h: u64|
                                0 <= k < at + 1 && #[trigger] all[ids@[k]@].reported(
                                    h,
                                ) implies now.contains(all[ids@[k]@].survivors(h)) by {
                                if k < at {
                                    let target = all[ids@[k]@].survivors(h);
                                    assert(earlier.contains(target));
                                    let i = choose|i: int|
                                        0 <= i < earlier.len() && earlier[i] == target;
                                    assert(now[i] == target);
                                } else {
                                    let i = choose|i: int|
                                        0 <= i < report.len() && all[id].fingerprint_of(
                                            #[trigger] report[i],
                                        ) == h;
                                    assert(now[earlier.len() + i] == report[i]);
                                }
                            }
                        }
                    }
                },
                None => {
                    assert(false);
                },
            }
            at = at + 1;
        }
        proof {
            assert forall|id: Seq<char>| #[trigger] all.dom().contains(id) implies names.contains(
                id,
            ) by {
                let k = choose|k: int| 0 <= k < ids@.len() && #[trigger] ids@[k]@ == id;
                assert(names[k] == id);
            }
            assert(names.no_duplicates()) by {
                assert forall|i: int, j: int|
                    0 <= i < names.len() && 0 <= j < names.len() && i != j implies names[i]
                    != names[j] by {
                    if i < j {
                        assert(ids@[i]@ != ids@[j]@);
                    } else {
                        assert(ids@[j]@ != ids@[i]@);
                    }
                }
            }
            assert forall|k: int| 0 <= k < names.len() implies all.dom().contains(
                #[trigger] names[k],
            ) && all[names[k]].is_report(parts[k], limitation) by {
                assert(all.dom().contains(ids@[k]@));
            }
            assert(reports_of(all, names, parts, limitation));
            if limitation is None {
                assert forall|id: Seq<char>, h: u64|
                    all.dom().contains(id) && #[trigger] all[id].reported(h) implies group_views(
                    groups@,
                ).contains(all[id].survivors(h)) by {
                    let k = choose|k: int| 0 <= k < ids@.len() && #[trigger] ids@[k]@ == id;
                    assert(all[ids@[k]@].reported(h));
                }
            }
        }
        groups
    }

    /// Drops the engine of a language.
    pub fn remove_engine(&mut self, language_id: &str)
        requires
            old(self).wf(),
        ensures
            final(self).wf(),
            final(self).engine_map() == old(self).engine_map().remove(language_id@),
    {
        let _ = engines_remove(&mut self.engines, language_id);
    }

    /// Drops all engines.
    pub fn clear(&mut self)
        ensures
            final(self).wf(),
            final(self).engine_map() == Map::<Seq<char>, Engine>::empty(),
    {
        engines_clear(&mut self.engines);
    }
}

} // verus!
