//! The plugin registry: a keyed store of plugin metadata with a linear
//! load / error / unload lifecycle label per entry.

use vstd::prelude::*;
use vstd::pervasive::VecAdditionalExecFns;

use crate::error::AppError;

verus! {

/// Lifecycle label of one plugin.
#[derive(Debug)]
pub enum PluginStatus {
    Loaded,
    Unloaded,
    Error(String),
    Loading,
    Unloading,
}

/// Mathematical model of a [`PluginStatus`].
#[verifier::ext_equal]
pub enum PluginStatusRecord {
    Loaded,
    Unloaded,
    Error(Seq<char>),
    Loading,
    Unloading,
}

impl View for PluginStatus {
    type V = PluginStatusRecord;

    open spec fn view(&self) -> PluginStatusRecord {
        match self {
            PluginStatus::Loaded => PluginStatusRecord::Loaded,
            PluginStatus::Unloaded => PluginStatusRecord::Unloaded,
            PluginStatus::Error(m) => PluginStatusRecord::Error(m@),
            PluginStatus::Loading => PluginStatusRecord::Loading,
            PluginStatus::Unloading => PluginStatusRecord::Unloading,
        }
    }
}

/// Metadata of one registered plugin.
#[derive(Debug)]
pub struct PluginInfo {
    pub id: String,
    pub name: String,
    pub version: String,
    pub description: String,
    pub status: PluginStatus,
    pub features: Vec<String>,
}

/// Mathematical model of a [`PluginInfo`].
#[verifier::ext_equal]
pub struct PluginRecord {
    pub id: Seq<char>,
    pub name: Seq<char>,
    pub version: Seq<char>,
    pub description: Seq<char>,
    pub status: PluginStatusRecord,
    pub features: Seq<Seq<char>>,
}

impl View for PluginInfo {
    type V = PluginRecord;

    open spec fn view(&self) -> PluginRecord {
        PluginRecord {
            id: self.id@,
            name: self.name@,
            version: self.version@,
            description: self.description@,
            status: self.status@,
            features: self.features@.map_values(|s: String| s@),
        }
    }
}

// ---------------------------------------------------------------------------
// Spec-level model of the registry.
// ---------------------------------------------------------------------------

/// The registry holds a record under `id`.
pub open spec fn reg_has(r: Seq<PluginRecord>, id: Seq<char>) -> bool {
    exists|i: int| 0 <= i < r.len() && r[i].id == id
}

/// The index of the record under `id` (meaningful when `reg_has`).
pub open spec fn reg_index(r: Seq<PluginRecord>, id: Seq<char>) -> int {
    choose|i: int| 0 <= i < r.len() && r[i].id == id
}

/// The record under `id` (meaningful when `reg_has`).
pub open spec fn reg_at(r: Seq<PluginRecord>, id: Seq<char>) -> PluginRecord {
    r[reg_index(r, id)]
}

/// No two records share an identifier.
pub open spec fn reg_unique(r: Seq<PluginRecord>) -> bool {
    forall|i: int, j: int| 0 <= i < j < r.len() ==> r[i].id != r[j].id
}

/// The registry after inserting `e`, overwriting any record already
/// under the same identifier.
pub open spec fn reg_upserted(r: Seq<PluginRecord>, e: PluginRecord) -> Seq<PluginRecord> {
    if reg_has(r, e.id) {
        r.update(reg_index(r, e.id), e)
    } else {
        r.push(e)
    }
}

/// The registry after relabeling the record under `id` (a no-op when
/// absent).
pub open spec fn reg_relabeled(
    r: Seq<PluginRecord>,
    id: Seq<char>,
    st: PluginStatusRecord,
) -> Seq<PluginRecord> {
    if reg_has(r, id) {
        r.update(reg_index(r, id), (PluginRecord { status: st, ..reg_at(r, id) }))
    } else {
        r
    }
}

/// The plugin names that this shell knows how to activate.
pub open spec fn is_known_plugin(name: Seq<char>) -> bool {
    name == "logger"@ || name == "influx-client"@
}

/// The lifecycle label a load attempt of `name` ends in.
pub open spec fn load_outcome(name: Seq<char>) -> PluginStatusRecord {
    if is_known_plugin(name) {
        PluginStatusRecord::Loaded
    } else {
        PluginStatusRecord::Error("Unknown plugin: "@ + name)
    }
}

/// The record a load attempt of `name` registers under the fresh
/// identifier `id`.
pub open spec fn loaded_record(id: Seq<char>, name: Seq<char>) -> PluginRecord {
    PluginRecord {
        id,
        name,
        version: "0.1.0"@,
        description: name + " plugin"@,
        status: load_outcome(name),
        features: Seq::empty(),
    }
}

/// In a registry without duplicates, an index holding `id` is the index
/// that `reg_index` denotes.
pub proof fn lemma_reg_index_is(r: Seq<PluginRecord>, id: Seq<char>, i: int)
    requires
        reg_unique(r),
        0 <= i < r.len(),
        r[i].id == id,
    ensures
        reg_has(r, id),
        reg_index(r, id) == i,
        reg_at(r, id) == r[i],
{
    assert(reg_has(r, id));
    let j = reg_index(r, id);
    if i < j {
        assert(r[i].id != r[j].id);
    } else if j < i {
        assert(r[j].id != r[i].id);
    }
}

/// What an upsert does: the new record stands under its identifier,
/// every other identifier keeps its record, uniqueness is preserved.
pub proof fn lemma_reg_upserted(r: Seq<PluginRecord>, e: PluginRecord)
    requires
        reg_unique(r),
    ensures
        reg_unique(reg_upserted(r, e)),
        reg_has(reg_upserted(r, e), e.id),
        reg_at(reg_upserted(r, e), e.id) == e,
        forall|id2: Seq<char>|
            id2 != e.id ==> #[trigger] reg_has(reg_upserted(r, e), id2) == reg_has(r, id2),
        forall|id2: Seq<char>|
            id2 != e.id && reg_has(r, id2) ==> #[trigger] reg_at(reg_upserted(r, e), id2) == reg_at(
                r,
                id2,
            ),
{
    let r1 = reg_upserted(r, e);
    if reg_has(r, e.id) {
        let k = reg_index(r, e.id);
        assert(0 <= k < r.len() && r[k].id == e.id);
        lemma_reg_index_is(r1, e.id, k);
    } else {
        assert(r1 == r.push(e));
        assert(r1[r.len() as int].id == e.id);
        assert forall|i: int, j: int| 0 <= i < j < r1.len() implies r1[i].id != r1[j].id by {
            if j < r.len() {
                assert(r[i].id != r[j].id);
            } else {
                if r1[i].id == e.id {
                    assert(r[i].id == e.id);
                    assert(reg_has(r, e.id));
                }
            }
        }
        lemma_reg_index_is(r1, e.id, r.len() as int);
    }
    assert forall|id2: Seq<char>| id2 != e.id implies #[trigger] reg_has(r1, id2) == reg_has(
        r,
        id2,
    ) by {
        if reg_has(r, id2) {
            let i = reg_index(r, id2);
            assert(r1[i].id == id2);
        }
        if reg_has(r1, id2) {
            let i = reg_index(r1, id2);
            assert(i < r.len());
            assert(r[i].id == id2);
        }
    }
    assert forall|id2: Seq<char>| id2 != e.id && reg_has(r, id2) implies #[trigger] reg_at(
        r1,
        id2,
    ) == reg_at(r, id2) by {
        let i = reg_index(r, id2);
        assert(r1[i].id == id2);
        lemma_reg_index_is(r1, id2, i);
    }
}

/// What a relabeling does: only the status of the record under `id`
/// moves.
pub proof fn lemma_reg_relabeled(r: Seq<PluginRecord>, id: Seq<char>, st: PluginStatusRecord)
    requires
        reg_unique(r),
        reg_has(r, id),
    ensures
        reg_unique(reg_relabeled(r, id, st)),
        reg_has(reg_relabeled(r, id, st), id),
        reg_at(reg_relabeled(r, id, st), id) == (PluginRecord { status: st, ..reg_at(r, id) }),
        forall|id2: Seq<char>|
            id2 != id ==> #[trigger] reg_has(reg_relabeled(r, id, st), id2) == reg_has(r, id2),
        forall|id2: Seq<char>|
            id2 != id && reg_has(r, id2) ==> #[trigger] reg_at(reg_relabeled(r, id, st), id2)
                == reg_at(r, id2),
{
    let e1 = PluginRecord { status: st, ..reg_at(r, id) };
    let k = reg_index(r, id);
    let r1 = reg_relabeled(r, id, st);
    assert(r1 == r.update(k, e1));
    lemma_reg_index_is(r1, id, k);
    assert forall|id2: Seq<char>| id2 != id implies #[trigger] reg_has(r1, id2) == reg_has(
        r,
        id2,
    ) by {
        if reg_has(r, id2) {
            let i = reg_index(r, id2);
            assert(r1[i].id == id2);
        }
        if reg_has(r1, id2) {
            let i = reg_index(r1, id2);
            assert(r[i].id == id2);
        }
    }
    assert forall|id2: Seq<char>| id2 != id && reg_has(r, id2) implies #[trigger] reg_at(r1, id2)
        == reg_at(r, id2) by {
        let i = reg_index(r, id2);
        lemma_reg_index_is(r1, id2, i);
    }
}

// ---------------------------------------------------------------------------
// The registry itself.
// ---------------------------------------------------------------------------

/// The keyed store of plugin metadata.
pub struct PluginManager {
    plugins: Vec<PluginInfo>,
}

impl View for PluginManager {
    type V = Seq<PluginRecord>;

    closed spec fn view(&self) -> Seq<PluginRecord> {
        self.plugins@.map_values(|p: PluginInfo| p@)
    }
}

impl Default for PluginManager {
    fn default() -> (m: Self)
        ensures
            m.wf(),
            m@.len() == 0,
    {
        PluginManager::new()
    }
}

impl PluginManager {
    /// Identifiers are registry keys: no two records share one.
    pub open spec fn wf(&self) -> bool {
        reg_unique(self@)
    }

    /// An empty registry.
    pub fn new() -> (m: PluginManager)
        ensures
            m.wf(),
            m@.len() == 0,
    {
        let m = PluginManager { plugins: Vec::new() };
        proof {
            assert(m@ =~= Seq::<PluginRecord>::empty());
        }
        m
    }

    /// First index of `id` in the registry, when present.
    fn find_plugin(&self, id: &String) -> (r: Option<usize>)
        ensures
            match r {
                Some(i) => 0 <= i < self@.len() && self@[i as int].id == id@,
                None => !reg_has(self@, id@),
            },
    {
        let mut i: usize = 0;
        while i < self.plugins.len()
            invariant
                i <= self.plugins.len(),
                forall|j: int| 0 <= j < i ==> self@[j].id != id@,
            decreases self.plugins.len() - i,
        {
            if self.plugins[i].id == *id {
                return Some(i);
            }
            i += 1;
        }
        None
    }

    /// Registers `plugin_name` under a fresh random identifier and
    /// attempts to activate it.  A known plugin ends `Loaded` and the
    /// call succeeds; an unknown one ends in an `Error` label and the
    /// call reports it — the failed record stays registered either way.
    pub fn load_plugin(&mut self, plugin_name: &str) -> (r: Result<(), AppError>)
        requires
            old(self).wf(),
        ensures
            final(self).wf(),
            exists|pid: Seq<char>|
                final(self)@ == #[trigger] reg_upserted(
                    old(self)@,
                    loaded_record(pid, plugin_name@),
                ),
            is_known_plugin(plugin_name@) ==> r == Ok::<(), AppError>(()),
            !is_known_plugin(plugin_name@) ==> match r {
                Err(AppError::Plugin { message }) => message@ == "Unknown plugin: "@
                    + plugin_name@,
                _ => false,
            },
    {
        let ghost r0 = self@;
        let plugin_id = crate::uniq::fresh_uuid();
        let name = plugin_name.to_owned();
        let known = name == String::from_str("logger") || name == String::from_str(
            "influx-client",
        );
        let status = if known {
            PluginStatus::Loaded
        } else {
            PluginStatus::Error(String::from_str("Unknown plugin: ").concat(plugin_name))
        };
        let info = PluginInfo {
            id: plugin_id,
            name,
            version: String::from_str("0.1.0"),
            description: plugin_name.to_owned().concat(" plugin"),
            status,
            features: Vec::new(),
        };
        let ghost e = info@;
        proof {
            assert(e.features =~= Seq::<Seq<char>>::empty());
            assert(e =~= loaded_record(e.id, plugin_name@));
        }
        match self.find_plugin(&info.id) {
            Some(i) => {
                proof {
                    lemma_reg_index_is(r0, e.id, i as int);
                }
                self.plugins.set(i, info);
                proof {
                    assert(self@ =~= r0.update(i as int, e));
                    assert(self@ == reg_upserted(r0, e));
                    lemma_reg_upserted(r0, e);
                }
            },
            None => {
                self.plugins.push(info);
                proof {
                    assert(self@ =~= r0.push(e));
                    assert(self@ == reg_upserted(r0, e));
                    lemma_reg_upserted(r0, e);
                }
            },
        }
        if known {
            Ok(())
        } else {
            Err(AppError::Plugin { message: String::from_str("Unknown plugin: ").concat(plugin_name) })
        }
    }

    /// Relabels the plugin under `plugin_id` as `Unloaded`; fails, and
    /// moves nothing, when no such plugin is registered.
    pub fn unload_plugin(&mut self, plugin_id: &str) -> (r: Result<(), AppError>)
        requires
            old(self).wf(),
        ensures
            final(self).wf(),
            final(self)@ == reg_relabeled(old(self)@, plugin_id@, PluginStatusRecord::Unloaded),
            reg_has(old(self)@, plugin_id@) ==> r == Ok::<(), AppError>(()),
            !reg_has(old(self)@, plugin_id@) ==> match r {
                Err(AppError::Plugin { message }) => message@ == "Plugin not found: "@
                    + plugin_id@,
                _ => false,
            },
    {
        let ghost r0 = self@;
        let key: String = plugin_id.to_owned();
        match self.find_plugin(&key) {
            Some(i) => {
                proof {
                    lemma_reg_index_is(r0, key@, i as int);
                }
                self.plugins[i].status = PluginStatus::Unloaded;
                proof {
                    assert(self.plugins@[i as int]@ =~= (PluginRecord {
                        status: PluginStatusRecord::Unloaded,
                        ..reg_at(r0, plugin_id@)
                    }));
                    assert(self@ =~= r0.update(i as int, self.plugins@[i as int]@));
                    assert(self@ == reg_relabeled(r0, plugin_id@, PluginStatusRecord::Unloaded));
                    lemma_reg_relabeled(r0, plugin_id@, PluginStatusRecord::Unloaded);
                }
                Ok(())
            },
            None => Err(
                AppError::Plugin {
                    message: String::from_str("Plugin not found: ").concat(plugin_id),
                },
            ),
        }
    }

    /// The lifecycle label of the plugin under `plugin_id`, when present.
    pub fn get_plugin_status(&self, plugin_id: &str) -> (r: Option<&PluginStatus>)
        requires
            self.wf(),
        ensures
            match r {
                Some(st) => reg_has(self@, plugin_id@) && st@ == reg_at(self@, plugin_id@).status,
                None => !reg_has(self@, plugin_id@),
            },
    {
        let key: String = plugin_id.to_owned();
        match self.find_plugin(&key) {
            Some(i) => {
                proof {
                    lemma_reg_index_is(self@, key@, i as int);
                }
                Some(&self.plugins[i].status)
            },
            None => None,
        }
    }

    /// References to every registered plugin's metadata, in registry
    /// order.
    pub fn list_plugins(&self) -> (v: Vec<&PluginInfo>)
        ensures
            v@.len() == self@.len(),
            forall|i: int| 0 <= i < v@.len() ==> #[trigger] v@[i]@ == self@[i],
    {
        let mut v: Vec<&PluginInfo> = Vec::new();
        let mut i: usize = 0;
        while i < self.plugins.len()
            invariant
                i <= self.plugins.len(),
                v@.len() == i,
                forall|j: int| 0 <= j < i ==> #[trigger] v@[j]@ == self@[j],
            decreases self.plugins.len() - i,
        {
            v.push(&self.plugins[i]);
            i += 1;
        }
        v
    }

    /// Unloads the plugin under `plugin_id` and loads its name afresh
    /// under a new identifier; fails, and moves nothing, when no such
    /// plugin is registered.
    pub fn restart_plugin(&mut self, plugin_id: &str) -> (r: Result<(), AppError>)
        requires
            old(self).wf(),
        ensures
            final(self).wf(),
            !reg_has(old(self)@, plugin_id@) ==> final(self)@ == old(self)@ && match r {
                Err(AppError::Plugin { message }) => message@ == "Plugin not found: "@
                    + plugin_id@,
                _ => false,
            },
            reg_has(old(self)@, plugin_id@) ==> ({
                let name = reg_at(old(self)@, plugin_id@).name;
                let unloaded = reg_relabeled(
                    old(self)@,
                    plugin_id@,
                    PluginStatusRecord::Unloaded,
                );
                &&& exists|pid: Seq<char>|
                    final(self)@ == #[trigger] reg_upserted(unloaded, loaded_record(pid, name))
                &&& (is_known_plugin(name) ==> r == Ok::<(), AppError>(()))
                &&& (!is_known_plugin(name) ==> match r {
                    Err(AppError::Plugin { message }) => message@ == "Unknown plugin: "@ + name,
                    _ => false,
                })
            }),
    {
        let key: String = plugin_id.to_owned();
        let i = match self.find_plugin(&key) {
            Some(i) => i,
            None => {
                return Err(
                    AppError::Plugin {
                        message: String::from_str("Plugin not found: ").concat(plugin_id),
                    },
                );
            },
        };
        proof {
            lemma_reg_index_is(self@, plugin_id@, i as int);
        }
        let name: String = self.plugins[i].name.clone();
        let _ = self.unload_plugin(plugin_id);
        self.load_plugin(name.as_str())
    }
}

} // verus!
