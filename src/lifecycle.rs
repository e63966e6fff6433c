use vstd::prelude::*;

use crate::adapter::{mode_for, surface_mode, SurfaceMode};
use crate::config::{added_model, models, WidgetConfig, WidgetModel};
use crate::error::WidgetError;
use crate::registry::{
    has_id, ids_unique, lemma_without_at, lemma_without_unique, with_background, Registry,
};

verus! {

/// The mode that a widget's own flags ask for.
pub open spec fn config_mode(m: WidgetModel) -> SurfaceMode {
    mode_for(m.background, m.always_on_top, m.visible_on_all_workspaces)
}

/// A surface's mode agrees with its widget's flags: the stacking level and
/// workspace visibility they ask for, and input taken unless the widget is
/// in background mode. Only a background widget's surface may switch
/// between letting input through and taking it.
pub open spec fn mode_fits(m: WidgetModel, mode: SurfaceMode) -> bool {
    &&& mode.level == config_mode(m).level
    &&& mode.all_workspaces == config_mode(m).all_workspaces
    &&& (!m.background ==> !mode.ignore_input)
}

/// The position of the entry with the id.
pub open spec fn index_of(s: Seq<WidgetModel>, id: Seq<char>) -> int {
    choose|i: int| 0 <= i < s.len() && (#[trigger] s[i]).id == id
}

/// One surface per entry, in the mode that the entry's flags ask for.
pub open spec fn modes_of(s: Seq<WidgetModel>) -> Map<Seq<char>, SurfaceMode> {
    Map::new(|k: Seq<char>| has_id(s, k), |k: Seq<char>| config_mode(s[index_of(s, k)]))
}

/// The entries of `l` whose surface was created, in order.
pub open spec fn kept(l: Seq<WidgetModel>, created: Seq<bool>) -> Seq<WidgetModel>
    decreases l.len(),
{
    if l.len() == 0 || created.len() != l.len() {
        Seq::empty()
    } else {
        let rest = kept(l.drop_last(), created.drop_last());
        if created.last() {
            rest.push(l.last())
        } else {
            rest
        }
    }
}

/// With unique ids, the entry at `i` is the one found by its id.
pub proof fn lemma_index_of(s: Seq<WidgetModel>, i: int)
    requires
        ids_unique(s),
        0 <= i < s.len(),
    ensures
        index_of(s, s[i].id) == i,
{
    let j = index_of(s, s[i].id);
    assert(0 <= j < s.len() && s[j].id == s[i].id);
}

/// Some string of `v` is `k`.
pub open spec fn holds_id(v: Seq<String>, k: Seq<char>) -> bool {
    exists|t: int| 0 <= t < v.len() && (#[trigger] v[t])@ == k
}

/// Some entry of `s` before position `j` has id `k`, and no entry of `kept` has it.
pub open spec fn dropped_before(s: Seq<WidgetModel>, j: int, kept: Seq<WidgetModel>, k: Seq<char>) -> bool {
    (exists|u: int| 0 <= u < j && (#[trigger] s[u]).id == k) && !has_id(kept, k)
}

/// The surfaces after an input-mode change: every background widget's
/// surface takes the new input-ignoring value, the others keep theirs.
pub open spec fn gated(
    entries: Seq<WidgetModel>,
    surfaces: Map<Seq<char>, SurfaceMode>,
    ignore: bool,
) -> Map<Seq<char>, SurfaceMode> {
    Map::new(
        |k: Seq<char>| surfaces.contains_key(k),
        |k: Seq<char>|
            if entries[index_of(entries, k)].background {
                SurfaceMode { ignore_input: ignore, ..surfaces[k] }
            } else {
                surfaces[k]
            },
    )
}

/// The surface of `k` belongs to a background widget and is not yet in the
/// input-ignoring state `ignore`.
pub open spec fn must_toggle(
    entries: Seq<WidgetModel>,
    surfaces: Map<Seq<char>, SurfaceMode>,
    ignore: bool,
    k: Seq<char>,
) -> bool {
    surfaces.contains_key(k) && entries[index_of(entries, k)].background && surfaces[k].ignore_input != ignore
}

/// No two strings of `v` are equal.
pub open spec fn distinct_ids(v: Seq<String>) -> bool {
    forall|i: int, j: int| 0 <= i < v.len() && 0 <= j < v.len() && i != j ==> v[i]@ != v[j]@
}

/// Keeping every entry keeps the list as it is.
pub proof fn lemma_kept_all(l: Seq<WidgetModel>, created: Seq<bool>)
    requires
        created.len() == l.len(),
        forall|i: int| 0 <= i < created.len() ==> #[trigger] created[i],
    ensures
        kept(l, created) == l,
    decreases l.len(),
{
    if l.len() > 0 {
        let c = created.drop_last();
        assert forall|i: int| 0 <= i < c.len() implies #[trigger] c[i] by {
            assert(c[i] == created[i]);
        }
        lemma_kept_all(l.drop_last(), c);
        assert(created.last() == created[created.len() - 1]);
        assert(l.drop_last().push(l.last()) =~= l);
    }
}

/// A restore of a list without repeated ids whose surfaces were all created
/// leaves exactly that list, field for field, and exactly one surface for
/// each of its entries and for no other id.
pub proof fn lemma_restore_exact(l: Seq<WidgetModel>, created: Seq<bool>)
    requires
        ids_unique(l),
        created.len() == l.len(),
        forall|i: int| 0 <= i < created.len() ==> #[trigger] created[i],
    ensures
        kept(l, created) == l,
        forall|k: Seq<char>| #[trigger] modes_of(kept(l, created)).contains_key(k) <==> has_id(l, k),
        forall|i: int| 0 <= i < l.len() ==> modes_of(kept(l, created))[#[trigger] l[i].id] == config_mode(l[i]),
{
    lemma_kept_all(l, created);
    assert forall|i: int| 0 <= i < l.len() implies modes_of(kept(l, created))[#[trigger] l[i].id] == config_mode(l[i]) by {
        assert(has_id(l, l[i].id));
        lemma_index_of(l, i);
    }
}

/// Removing an id twice leaves the widgets and the surfaces as the first
/// removal left them.
pub proof fn lemma_remove_idempotent(
    entries: Seq<WidgetModel>,
    surfaces: Map<Seq<char>, SurfaceMode>,
    id: Seq<char>,
)
    requires
        ids_unique(entries),
    ensures
        !has_id(crate::registry::without_id(entries, id), id),
        crate::registry::without_id(crate::registry::without_id(entries, id), id)
            == crate::registry::without_id(entries, id),
        surfaces.remove(id).remove(id) == surfaces.remove(id),
{
    crate::registry::lemma_remove_twice(entries, id);
    assert(surfaces.remove(id).remove(id) =~= surfaces.remove(id));
}

/// What a surface must become once the platform has tried to create it.
pub struct CreateRequest {
    pub config: WidgetConfig,
    pub mode: SurfaceMode,
}

/// Relies on uuid::Uuid::new_v4 and the Display impl of uuid::Uuid: a random
/// version-4 UUID written in hyphenated form, 36 characters.
#[verifier::external_body]
fn random_id() -> (r: String)
    ensures
        r@.len() == 36,
{
    uuid::Uuid::new_v4().to_string()
}

/// The label of the native surface that shows the widget with the id.
pub open spec fn label_of(id: Seq<char>) -> Seq<char> {
    "widget-"@ + id
}

pub fn window_label(id: &String) -> (r: String)
    ensures
        r@ == label_of(id@),
{
    String::from_str("widget-").concat(id.as_str())
}

/// The registry together with the native surface of each entry.
pub struct WindowManager {
    registry: Registry,
    modes: Vec<SurfaceMode>,
}

impl WindowManager {
    /// The configurations, in order.
    pub closed spec fn entries(&self) -> Seq<WidgetModel> {
        self.registry@
    }

    /// The live surfaces, keyed by widget id, with the mode each is in.
    pub closed spec fn surfaces(&self) -> Map<Seq<char>, SurfaceMode> {
        Map::new(
            |k: Seq<char>| has_id(self.registry@, k),
            |k: Seq<char>| self.modes@[index_of(self.registry@, k)],
        )
    }

    /// Ids are unique and every entry has exactly one surface.
    pub closed spec fn wf(&self) -> bool {
        &&& self.registry.wf()
        &&& self.modes@.len() == self.registry@.len()
        &&& forall|i: int| 0 <= i < self.modes@.len() ==> mode_fits(self.registry@[i], #[trigger] self.modes@[i])
    }

    /// A surface exists for an id exactly when an entry has it: no orphan
    /// surface, no entry without one.
    pub proof fn lemma_surfaces_match_entries(&self)
        requires
            self.wf(),
        ensures
            ids_unique(self.entries()),
            forall|k: Seq<char>| #[trigger] self.surfaces().contains_key(k) <==> has_id(self.entries(), k),
            forall|k: Seq<char>| #[trigger] self.surfaces().contains_key(k) ==> {
                let i = index_of(self.entries(), k);
                &&& 0 <= i < self.entries().len()
                &&& self.entries()[i].id == k
                &&& mode_fits(self.entries()[i], self.surfaces()[k])
            },
    {
        assert forall|k: Seq<char>| #[trigger] self.surfaces().contains_key(k) implies {
            let i = index_of(self.entries(), k);
            &&& 0 <= i < self.entries().len()
            &&& self.entries()[i].id == k
            &&& mode_fits(self.entries()[i], self.surfaces()[k])
        } by {
            let i = index_of(self.registry@, k);
            assert(mode_fits(self.registry@[i], self.modes@[i]));
        }
    }

    /// A surface that lets input through belongs to a background widget, so
    /// turning input back on switches it, with one call, and leaves it
    /// taking input.
    pub proof fn lemma_click_through_is_switched(&self, k: Seq<char>)
        requires
            self.wf(),
            self.surfaces().contains_key(k),
            self.surfaces()[k].ignore_input,
        ensures
            self.entries()[index_of(self.entries(), k)].background,
            must_toggle(self.entries(), self.surfaces(), false, k),
            !gated(self.entries(), self.surfaces(), false)[k].ignore_input,
    {
        self.lemma_surfaces_match_entries();
    }

    /// A widget outside background mode always takes input.
    pub proof fn lemma_foreground_takes_input(&self, k: Seq<char>)
        requires
            self.wf(),
            self.surfaces().contains_key(k),
            !self.entries()[index_of(self.entries(), k)].background,
        ensures
            !self.surfaces()[k].ignore_input,
    {
        self.lemma_surfaces_match_entries();
    }

    /// A background widget that takes input lets it through again, with one
    /// call, once input is to be ignored.
    pub proof fn lemma_background_is_released(&self, k: Seq<char>)
        requires
            self.wf(),
            self.surfaces().contains_key(k),
            self.entries()[index_of(self.entries(), k)].background,
            !self.surfaces()[k].ignore_input,
        ensures
            must_toggle(self.entries(), self.surfaces(), true, k),
            gated(self.entries(), self.surfaces(), true)[k].ignore_input,
    {
    }

    pub fn new() -> (r: WindowManager)
        ensures
            r.wf(),
            r.entries() == Seq::<WidgetModel>::empty(),
            r.surfaces() == Map::<Seq<char>, SurfaceMode>::empty(),
    {
        let r = WindowManager { registry: Registry::new(), modes: Vec::new() };
        assert(r.surfaces() =~= Map::<Seq<char>, SurfaceMode>::empty());
        r
    }

    /// A copy of every configuration, in order.
    pub fn list(&self) -> (r: Vec<WidgetConfig>)
        ensures
            models(r@) == self.entries(),
    {
        self.registry.list()
    }

    pub fn registry(&self) -> (r: &Registry)
        ensures
            r@ == self.entries(),
            self.wf() ==> r.wf(),
    {
        &self.registry
    }

    /// The mode of the surface of the widget with the id, if it has one.
    pub fn mode_of(&self, id: &String) -> (r: Option<SurfaceMode>)
        requires
            self.wf(),
        ensures
            r == (if self.surfaces().contains_key(id@) {
                Some(self.surfaces()[id@])
            } else {
                None::<SurfaceMode>
            }),
    {
        match self.registry.find(id) {
            Some(i) => {
                proof {
                    lemma_index_of(self.registry@, i as int);
                }
                Some(self.modes[i])
            },
            None => None,
        }
    }

    /// What a new widget with the given id and values would be, unless the
    /// id is taken.
    pub fn plan_add_with_id(
        &self,
        id: String,
        kind: String,
        x: Option<i32>,
        y: Option<i32>,
        width: Option<i32>,
        height: Option<i32>,
        background: Option<bool>,
    ) -> (r: Result<CreateRequest, WidgetError>)
        requires
            self.wf(),
        ensures
            r is Ok <==> !has_id(self.entries(), id@),
            r matches Ok(q) ==> q.config@ == added_model(id@, kind@, x, y, width, height, background)
                && q.mode == config_mode(q.config@),
            r matches Err(e) ==> e == WidgetError::DuplicateId,
    {
        if self.registry.contains(&id) {
            return Err(WidgetError::DuplicateId);
        }
        let config = WidgetConfig::with_defaults(id, kind, x, y, width, height, background);
        let mode = surface_mode(config.background, config.always_on_top, config.visible_on_all_workspaces);
        Ok(CreateRequest { config, mode })
    }

    /// What a new widget with a fresh random id and the given values would be.
    /// Fails only where the random id is already taken.
    pub fn plan_add(
        &self,
        kind: String,
        x: Option<i32>,
        y: Option<i32>,
        width: Option<i32>,
        height: Option<i32>,
        background: Option<bool>,
    ) -> (r: Result<CreateRequest, WidgetError>)
        requires
            self.wf(),
        ensures
            r matches Ok(q) ==> !has_id(self.entries(), q.config@.id)
                && q.config@.id.len() == 36
                && q.config@ == added_model(q.config@.id, kind@, x, y, width, height, background)
                && q.mode == config_mode(q.config@),
            r matches Err(e) ==> e == WidgetError::DuplicateId,
            r is Err ==> exists|i: int| 0 <= i < self.entries().len() && (#[trigger] self.entries()[i]).id.len() == 36,
    {
        let id = random_id();
        let ghost idv = id@;
        let r = self.plan_add_with_id(id, kind, x, y, width, height, background);
        proof {
            if r is Err {
                let i = choose|i: int| 0 <= i < self.entries().len() && (#[trigger] self.entries()[i]).id == idv;
                assert(self.entries()[i].id.len() == 36);
            }
        }
        r
    }

    /// Records a new widget once the platform has reported on its surface.
    /// The entry and its surface are committed together: on a creation
    /// failure, or a taken id, nothing changes.
    pub fn commit_add(&mut self, config: WidgetConfig, created: Result<(), String>) -> (r: Result<(), WidgetError>)
        requires
            old(self).wf(),
        ensures
            final(self).wf(),
            has_id(old(self).entries(), config@.id) ==> r == Err::<(), WidgetError>(WidgetError::DuplicateId),
            !has_id(old(self).entries(), config@.id) ==> match created {
                Ok(_) => r is Ok,
                Err(m) => r == Err::<(), WidgetError>(WidgetError::WindowCreationFailure(m)),
            },
            r is Ok ==> final(self).entries() == old(self).entries().push(config@)
                && final(self).surfaces() == old(self).surfaces().insert(config@.id, config_mode(config@)),
            r is Err ==> final(self).entries() == old(self).entries()
                && final(self).surfaces() == old(self).surfaces(),
    {
        if self.registry.contains(&config.id) {
            return Err(WidgetError::DuplicateId);
        }
        match created {
            Err(m) => Err(WidgetError::WindowCreationFailure(m)),
            Ok(_) => {
                let ghost s = self.registry@;
                let ghost old_modes = self.modes@;
                let ghost old_surfaces = self.surfaces();
                let ghost c = config@;
                let mode = surface_mode(config.background, config.always_on_top, config.visible_on_all_workspaces);
                let r = self.registry.add(config);
                self.modes.push(mode);
                proof {
                    let s2 = self.registry@;
                    assert(s2 == s.push(c));
                    assert forall|k: Seq<char>| #[trigger] has_id(s2, k) <==> (has_id(s, k) || k == c.id) by {
                        if has_id(s2, k) {
                            let j = choose|j: int| 0 <= j < s2.len() && (#[trigger] s2[j]).id == k;
                            if j < s.len() {
                                assert(s[j] == s2[j]);
                            }
                        }
                        if has_id(s, k) {
                            let j = choose|j: int| 0 <= j < s.len() && (#[trigger] s[j]).id == k;
                            assert(s2[j] == s[j]);
                        }
                        if k == c.id {
                            assert(s2[s.len() as int].id == k);
                        }
                    }
                    assert forall|k: Seq<char>| #[trigger] has_id(s2, k) implies
                        self.surfaces()[k] == old_surfaces.insert(c.id, mode)[k] by {
                        if k == c.id {
                            lemma_index_of(s2, s.len() as int);
                        } else {
                            let j = choose|j: int| 0 <= j < s.len() && (#[trigger] s[j]).id == k;
                            assert(s2[j] == s[j]);
                            lemma_index_of(s2, j);
                            lemma_index_of(s, j);
                        }
                    }
                    assert(self.surfaces() =~= old_surfaces.insert(c.id, mode));
                }
                r
            },
        }
    }

    /// Drops the widget with the id and its surface. Returns whether there
    /// was one, that is, whether its native surface has to be closed. An
    /// unknown id changes nothing.
    pub fn remove(&mut self, id: &String) -> (removed: bool)
        requires
            old(self).wf(),
        ensures
            final(self).wf(),
            removed == has_id(old(self).entries(), id@),
            final(self).entries() == crate::registry::without_id(old(self).entries(), id@),
            final(self).surfaces() == old(self).surfaces().remove(id@),
    {
        let ghost s = self.registry@;
        let ghost old_surfaces = self.surfaces();
        match self.registry.find(id) {
            None => {
                let removed = self.registry.remove(id);
                proof {
                    crate::registry::lemma_without_absent(s, id@);
                    assert(self.surfaces() =~= old_surfaces.remove(id@));
                }
                removed
            },
            Some(i) => {
                let ghost old_modes = self.modes@;
                let removed = self.registry.remove(id);
                self.modes.remove(i);
                proof {
                    lemma_without_at(s, i as int);
                    lemma_without_unique(s, id@);
                    let s2 = self.registry@;
                    assert(s2 == s.remove(i as int));
                    assert forall|k: Seq<char>| #[trigger] has_id(s2, k) <==> (has_id(s, k) && k != id@) by {
                        if has_id(s2, k) {
                            let j = choose|j: int| 0 <= j < s2.len() && (#[trigger] s2[j]).id == k;
                            let sj = if j < i { j } else { j + 1 };
                            assert(s2[j] == s[sj]);
                        }
                        if has_id(s, k) && k != id@ {
                            let j = choose|j: int| 0 <= j < s.len() && (#[trigger] s[j]).id == k;
                            assert(j != i);
                            let tj = if j < i { j } else { j - 1 };
                            assert(s2[tj] == s[j]);
                        }
                    }
                    assert forall|k: Seq<char>| #[trigger] has_id(s2, k) implies
                        self.surfaces()[k] == old_surfaces[k] by {
                        let j = choose|j: int| 0 <= j < s2.len() && (#[trigger] s2[j]).id == k;
                        let sj = if j < i { j } else { j + 1 };
                        assert(s2[j] == s[sj]);
                        lemma_index_of(s2, j);
                        lemma_index_of(s, sj);
                    }
                    assert(self.surfaces() =~= old_surfaces.remove(id@));
                }
                removed
            },
        }
    }

    /// Replaces the configuration with the config's id, and returns the mode
    /// that its surface must be put in, which its new flags decide. An
    /// unknown id changes nothing and returns `None`.
    pub fn update(&mut self, config: WidgetConfig) -> (r: Option<SurfaceMode>)
        requires
            old(self).wf(),
        ensures
            final(self).wf(),
            r is Some == has_id(old(self).entries(), config@.id),
            final(self).entries() == crate::registry::replaced(old(self).entries(), config@),
            r matches Some(m) ==> m == config_mode(config@)
                && final(self).surfaces() == old(self).surfaces().insert(config@.id, m),
            r is None ==> final(self).surfaces() == old(self).surfaces(),
    {
        let ghost s = self.registry@;
        let ghost old_surfaces = self.surfaces();
        let ghost c = config@;
        match self.registry.find(&config.id) {
            None => {
                self.registry.update(config);
                proof {
                    assert(self.registry@ =~= s);
                    self.lemma_same_ids(s, old_surfaces);
                }
                None
            },
            Some(i) => {
                let mode = surface_mode(config.background, config.always_on_top, config.visible_on_all_workspaces);
                self.registry.update(config);
                proof {
                    assert forall|j: int| 0 <= j < s.len() implies (#[trigger] self.registry@[j]).id == s[j].id by {
                        if s[j].id == c.id {
                            assert(self.registry@[j] == c);
                        }
                    }
                    assert(self.registry@[i as int] == c);
                    self.lemma_same_ids(s, old_surfaces);
                    lemma_index_of(self.registry@, i as int);
                }
                let ghost mid_surfaces = self.surfaces();
                self.modes.set(i, mode);
                proof {
                    let s2 = self.registry@;
                    assert forall|k: Seq<char>| #[trigger] has_id(s2, k) implies
                        self.surfaces()[k] == mid_surfaces.insert(c.id, mode)[k] by {
                        let j = choose|j: int| 0 <= j < s2.len() && (#[trigger] s2[j]).id == k;
                        lemma_index_of(s2, j);
                    }
                    assert(self.surfaces() =~= old_surfaces.insert(c.id, mode));
                    assert forall|j: int| 0 <= j < self.modes@.len() implies mode_fits(self.registry@[j], #[trigger] self.modes@[j]) by {
                        if j != i {
                            assert(s[j].id != c.id) by {
                                assert(s[j].id != s[i as int].id);
                            }
                            assert(self.registry@[j] == s[j]);
                        }
                    }
                }
                Some(mode)
            },
        }
    }

    /// Where the registry changed no id at any position, and the modes did
    /// not change, the surfaces did not change.
    proof fn lemma_same_ids(&self, s: Seq<WidgetModel>, old_surfaces: Map<Seq<char>, SurfaceMode>)
        requires
            self.registry@.len() == s.len(),
            forall|i: int| 0 <= i < s.len() ==> (#[trigger] self.registry@[i]).id == s[i].id,
            ids_unique(s),
            old_surfaces == Map::new(
                |k: Seq<char>| has_id(s, k),
                |k: Seq<char>| self.modes@[index_of(s, k)],
            ),
        ensures
            ids_unique(self.registry@),
            self.surfaces() == old_surfaces,
    {
        let s2 = self.registry@;
        assert forall|a: int, b: int| 0 <= a < s2.len() && 0 <= b < s2.len() && a != b implies s2[a].id != s2[b].id by {
            assert(s[a].id != s[b].id);
        }
        assert forall|k: Seq<char>| #[trigger] has_id(s2, k) <==> has_id(s, k) by {
            if has_id(s2, k) {
                let j = choose|j: int| 0 <= j < s2.len() && (#[trigger] s2[j]).id == k;
                assert(s[j].id == k);
            }
            if has_id(s, k) {
                let j = choose|j: int| 0 <= j < s.len() && (#[trigger] s[j]).id == k;
                assert(s2[j].id == k);
            }
        }
        assert forall|k: Seq<char>| #[trigger] has_id(s2, k) implies index_of(s2, k) == index_of(s, k) by {
            let j = choose|j: int| 0 <= j < s.len() && (#[trigger] s[j]).id == k;
            assert(s2[j].id == k);
            lemma_index_of(s2, j);
            lemma_index_of(s, j);
        }
        assert(self.surfaces() =~= old_surfaces);
    }

    /// Switches the widget with the id into or out of background mode, and
    /// returns the mode that its surface must be put in; its flags decide the
    /// rest of the mode. An unknown id changes nothing and returns `None`.
    /// The same call twice leaves the state as the first left it.
    pub fn set_background(&mut self, id: &String, background: bool) -> (r: Option<SurfaceMode>)
        requires
            old(self).wf(),
        ensures
            final(self).wf(),
            r is Some == has_id(old(self).entries(), id@),
            final(self).entries() == with_background(old(self).entries(), id@, background),
            r matches Some(m) ==> m == config_mode(
                final(self).entries()[index_of(final(self).entries(), id@)],
            ) && m.ignore_input == background
              && final(self).surfaces() == old(self).surfaces().insert(id@, m),
            r is None ==> final(self).surfaces() == old(self).surfaces(),
    {
        let ghost s = self.registry@;
        let ghost old_surfaces = self.surfaces();
        match self.registry.find(id) {
            None => {
                self.registry.set_background(id, background);
                proof {
                    self.lemma_same_ids(s, old_surfaces);
                }
                None
            },
            Some(i) => {
                let always_on_top = self.registry.get_at(i).always_on_top;
                let all_workspaces = self.registry.get_at(i).visible_on_all_workspaces;
                self.registry.set_background(id, background);
                let mode = surface_mode(background, always_on_top, all_workspaces);
                proof {
                    assert(self.registry@[i as int].id == s[i as int].id);
                    self.lemma_same_ids(s, old_surfaces);
                    lemma_index_of(self.registry@, i as int);
                }
                let ghost mid_surfaces = self.surfaces();
                self.modes.set(i, mode);
                proof {
                    let s2 = self.registry@;
                    assert forall|k: Seq<char>| #[trigger] has_id(s2, k) implies
                        self.surfaces()[k] == mid_surfaces.insert(id@, mode)[k] by {
                        let j = choose|j: int| 0 <= j < s2.len() && (#[trigger] s2[j]).id == k;
                        lemma_index_of(s2, j);
                    }
                    assert(self.surfaces() =~= old_surfaces.insert(id@, mode));
                }
                Some(mode)
            },
        }
    }

    /// The hit-test rectangles of the widgets, in order.
    pub fn rects(&self) -> (r: Vec<crate::geometry::WidgetRect>)
        ensures
            r@ == crate::registry::rects_of(self.entries()),
    {
        self.registry.rects()
    }

    /// Replaces every widget by those of the list, which must not repeat an
    /// id. `created[i]` tells whether the platform has a surface for
    /// `list[i]`; only those entries are kept, each with the mode that its
    /// flags ask for. Returns the ids whose surfaces are left over and have
    /// to be closed. A list with a repeated id changes nothing.
    pub fn restore(&mut self, list: Vec<WidgetConfig>, created: Vec<bool>) -> (r: Result<Vec<String>, WidgetError>)
        requires
            old(self).wf(),
            created@.len() == list@.len(),
        ensures
            final(self).wf(),
            r is Ok <==> ids_unique(models(list@)),
            r matches Ok(stale) ==> final(self).entries() == kept(models(list@), created@)
                && final(self).surfaces() == modes_of(final(self).entries())
                && forall|k: Seq<char>| #[trigger] holds_id(stale@, k)
                    <==> (old(self).surfaces().contains_key(k) && !final(self).surfaces().contains_key(k)),
            r is Err ==> r == Err::<Vec<String>, WidgetError>(WidgetError::DuplicateId)
                && final(self).entries() == old(self).entries()
                && final(self).surfaces() == old(self).surfaces(),
    {
        let mut probe = Registry::new();
        if probe.replace_all(crate::config::duplicate_all(&list)).is_err() {
            return Err(WidgetError::DuplicateId);
        }
        let ghost l = models(list@);
        let ghost c = created@;
        let mut fresh = Registry::new();
        let mut modes: Vec<SurfaceMode> = Vec::new();
        let mut i: usize = 0;
        while i < list.len()
            invariant
                l == models(list@),
                c == created@,
                c.len() == l.len(),
                ids_unique(l),
                i <= l.len(),
                fresh.wf(),
                fresh@ == kept(l.subrange(0, i as int), c.subrange(0, i as int)),
                modes@.len() == fresh@.len(),
                forall|j: int| 0 <= j < fresh@.len() ==> modes@[j] == config_mode(#[trigger] fresh@[j]),
                forall|k: int| 0 <= k < fresh@.len() ==>
                    exists|j: int| 0 <= j < i && #[trigger] fresh@[k] == #[trigger] l[j],
            decreases l.len() - i,
        {
            proof {
                assert(l.subrange(0, i + 1).drop_last() =~= l.subrange(0, i as int));
                assert(c.subrange(0, i + 1).drop_last() =~= c.subrange(0, i as int));
                assert(l.subrange(0, i + 1).last() == l[i as int]);
                assert(c.subrange(0, i + 1).last() == c[i as int]);
            }
            if created[i] {
                let config = list[i].duplicate();
                let mode = surface_mode(config.background, config.always_on_top, config.visible_on_all_workspaces);
                let ghost before = fresh@;
                proof {
                    if has_id(before, l[i as int].id) {
                        let k = choose|k: int| 0 <= k < before.len() && (#[trigger] before[k]).id == l[i as int].id;
                        let j = choose|j: int| 0 <= j < i && #[trigger] before[k] == #[trigger] l[j];
                        assert(l[j].id != l[i as int].id);
                    }
                }
                let _ = fresh.add(config);
                modes.push(mode);
                proof {
                    assert forall|k: int| 0 <= k < fresh@.len() implies
                        exists|j: int| 0 <= j < i + 1 && #[trigger] fresh@[k] == #[trigger] l[j] by {
                        if k == before.len() {
                            assert(fresh@[k] == l[i as int]);
                        } else {
                            assert(fresh@[k] == before[k]);
                        }
                    }
                }
            } else {
                assert(fresh@ == kept(l.subrange(0, i + 1), c.subrange(0, i + 1)));
            }
            i = i + 1;
        }
        proof {
            assert(l.subrange(0, l.len() as int) =~= l);
            assert(c.subrange(0, c.len() as int) =~= c);
        }
        let ghost new_entries = fresh@;
        let ghost old_surfaces = self.surfaces();
        let ghost s = self.registry@;
        let mut stale: Vec<String> = Vec::new();
        let mut j: usize = 0;
        while j < self.registry.len()
            invariant
                s == self.registry@,
                fresh@ == new_entries,
                fresh.wf(),
                j <= s.len(),
                forall|k: Seq<char>| #[trigger] holds_id(stale@, k) <==> dropped_before(s, j as int, new_entries, k),
            decreases s.len() - j,
        {
            let id = self.registry.get_at(j).id.clone();
            let ghost before = stale@;
            if !fresh.contains(&id) {
                stale.push(id);
                proof {
                    assert forall|k: Seq<char>| #[trigger] holds_id(stale@, k) <==> dropped_before(s, j + 1, new_entries, k) by {
                        if dropped_before(s, j + 1, new_entries, k) {
                            let u = choose|u: int| 0 <= u < j + 1 && (#[trigger] s[u]).id == k;
                            if u == j {
                                assert(stale@[before.len() as int]@ == k);
                            } else {
                                assert(dropped_before(s, j as int, new_entries, k));
                                assert(holds_id(before, k));
                                let t = choose|t: int| 0 <= t < before.len() && (#[trigger] before[t])@ == k;
                                assert(stale@[t] == before[t]);
                            }
                        }
                        if holds_id(stale@, k) {
                            let t = choose|t: int| 0 <= t < stale@.len() && (#[trigger] stale@[t])@ == k;
                            if t == before.len() {
                                assert(s[j as int].id == k);
                                assert(dropped_before(s, j + 1, new_entries, k));
                            } else {
                                assert(stale@[t] == before[t]);
                                assert(holds_id(before, k));
                            }
                        }
                    }
                }
            } else {
                proof {
                    assert forall|k: Seq<char>| #[trigger] holds_id(stale@, k) <==> dropped_before(s, j + 1, new_entries, k) by {
                        if dropped_before(s, j + 1, new_entries, k) {
                            let u = choose|u: int| 0 <= u < j + 1 && (#[trigger] s[u]).id == k;
                            assert(u != j);
                            assert(dropped_before(s, j as int, new_entries, k));
                        }
                        if holds_id(stale@, k) {
                            assert(dropped_before(s, j as int, new_entries, k));
                        }
                    }
                }
            }
            j = j + 1;
        }
        self.registry = fresh;
        self.modes = modes;
        proof {
            assert forall|k: Seq<char>| #[trigger] holds_id(stale@, k)
                <==> (old_surfaces.contains_key(k) && !has_id(new_entries, k)) by {
                if holds_id(stale@, k) {
                    assert(dropped_before(s, s.len() as int, new_entries, k));
                }
                if old_surfaces.contains_key(k) && !has_id(new_entries, k) {
                    assert(dropped_before(s, s.len() as int, new_entries, k));
                }
            }
            assert forall|k: Seq<char>| #[trigger] has_id(new_entries, k) implies
                self.surfaces()[k] == modes_of(new_entries)[k] by {
                let u = index_of(new_entries, k);
                assert(0 <= u < new_entries.len() && new_entries[u].id == k);
            }
            assert(self.surfaces() =~= modes_of(new_entries));
        }
        Ok(stale)
    }

    /// Puts the surface of every background widget into the input-ignoring
    /// state `ignore`, and returns the ids of those whose state changes: one
    /// platform call each, none for a surface already in that state.
    pub fn apply_input_ignoring(&mut self, ignore: bool) -> (r: Vec<String>)
        requires
            old(self).wf(),
        ensures
            final(self).wf(),
            final(self).entries() == old(self).entries(),
            final(self).surfaces() == gated(old(self).entries(), old(self).surfaces(), ignore),
            forall|k: Seq<char>| #[trigger] holds_id(r@, k)
                <==> must_toggle(old(self).entries(), old(self).surfaces(), ignore, k),
            distinct_ids(r@),
    {
        let ghost s = self.registry@;
        let ghost old_modes = self.modes@;
        let ghost old_surfaces = self.surfaces();
        let mut changed: Vec<String> = Vec::new();
        let n = self.modes.len();
        let mut i: usize = 0;
        while i < n
            invariant
                s == self.registry@,
                self.registry.wf(),
                n == s.len(),
                self.modes@.len() == n,
                old_modes.len() == n,
                i <= n,
                old_surfaces == Map::new(
                    |k: Seq<char>| has_id(s, k),
                    |k: Seq<char>| old_modes[index_of(s, k)],
                ),
                forall|j: int| 0 <= j < n ==> #[trigger] self.modes@[j] == (
                    if j < i && s[j].background {
                        SurfaceMode { ignore_input: ignore, ..old_modes[j] }
                    } else {
                        old_modes[j]
                    }),
                forall|k: Seq<char>| #[trigger] holds_id(changed@, k) <==>
                    exists|j: int| 0 <= j < i && (#[trigger] s[j]).id == k && s[j].background
                        && old_modes[j].ignore_input != ignore,
                distinct_ids(changed@),
                forall|t: int| 0 <= t < changed@.len() ==> exists|j: int| 0 <= j < i && (#[trigger] s[j]).id == (#[trigger] changed@[t])@,
            decreases n - i,
        {
            let entry = self.registry.get_at(i);
            let current = self.modes[i];
            if entry.background && current.ignore_input != ignore {
                let id = entry.id.clone();
                let ghost before = changed@;
                self.modes.set(i, SurfaceMode { ignore_input: ignore, ..current });
                changed.push(id);
                proof {
                    assert forall|t: int| 0 <= t < changed@.len() implies exists|j: int| 0 <= j < i + 1 && (#[trigger] s[j]).id == (#[trigger] changed@[t])@ by {
                        if t == before.len() {
                            assert(s[i as int].id == changed@[t]@);
                        } else {
                            assert(changed@[t] == before[t]);
                        }
                    }
                    assert forall|a: int, b: int| 0 <= a < changed@.len() && 0 <= b < changed@.len() && a != b implies changed@[a]@ != changed@[b]@ by {
                        if a == before.len() || b == before.len() {
                            let o = if a == before.len() { b } else { a };
                            assert(changed@[o] == before[o]);
                            let j = choose|j: int| 0 <= j < i && (#[trigger] s[j]).id == (#[trigger] before[o])@;
                            assert(s[j].id != s[i as int].id);
                        } else {
                            assert(changed@[a] == before[a] && changed@[b] == before[b]);
                        }
                    }
                    assert forall|k: Seq<char>| #[trigger] holds_id(changed@, k) <==>
                        exists|j: int| 0 <= j < i + 1 && (#[trigger] s[j]).id == k && s[j].background
                            && old_modes[j].ignore_input != ignore by {
                        if holds_id(changed@, k) {
                            let t = choose|t: int| 0 <= t < changed@.len() && (#[trigger] changed@[t])@ == k;
                            if t == before.len() {
                                assert(s[i as int].id == k);
                            } else {
                                assert(changed@[t] == before[t]);
                                assert(holds_id(before, k));
                            }
                        }
                        if exists|j: int| 0 <= j < i + 1 && (#[trigger] s[j]).id == k && s[j].background
                            && old_modes[j].ignore_input != ignore {
                            let j = choose|j: int| 0 <= j < i + 1 && (#[trigger] s[j]).id == k && s[j].background
                                && old_modes[j].ignore_input != ignore;
                            if j == i {
                                assert(changed@[before.len() as int]@ == k);
                            } else {
                                assert(holds_id(before, k));
                                let t = choose|t: int| 0 <= t < before.len() && (#[trigger] before[t])@ == k;
                                assert(changed@[t] == before[t]);
                            }
                        }
                    }
                }
            } else {
                proof {
                    assert forall|k: Seq<char>| #[trigger] holds_id(changed@, k) <==>
                        exists|j: int| 0 <= j < i + 1 && (#[trigger] s[j]).id == k && s[j].background
                            && old_modes[j].ignore_input != ignore by {
                        if exists|j: int| 0 <= j < i + 1 && (#[trigger] s[j]).id == k && s[j].background
                            && old_modes[j].ignore_input != ignore {
                            let j = choose|j: int| 0 <= j < i + 1 && (#[trigger] s[j]).id == k && s[j].background
                                && old_modes[j].ignore_input != ignore;
                            assert(j != i);
                        }
                    }
                    if s[i as int].background {
                        assert(old_modes[i as int] == SurfaceMode { ignore_input: ignore, ..old_modes[i as int] });
                    }
                }
            }
            i = i + 1;
        }
        proof {
            assert forall|k: Seq<char>| #[trigger] has_id(s, k) implies
                self.surfaces()[k] == gated(s, old_surfaces, ignore)[k] by {
                let u = index_of(s, k);
                assert(0 <= u < s.len() && s[u].id == k);
            }
            assert(self.surfaces() =~= gated(s, old_surfaces, ignore));
            assert forall|k: Seq<char>| #[trigger] holds_id(changed@, k)
                <==> must_toggle(s, old_surfaces, ignore, k) by {
                if must_toggle(s, old_surfaces, ignore, k) {
                    let u = index_of(s, k);
                    assert(0 <= u < s.len() && s[u].id == k);
                }
                if holds_id(changed@, k) {
                    let j = choose|j: int| 0 <= j < n && (#[trigger] s[j]).id == k && s[j].background
                        && old_modes[j].ignore_input != ignore;
                    lemma_index_of(s, j);
                }
            }
        }
        changed
    }
}

} // verus!
