use vstd::prelude::*;

use crate::error::WidgetError;
use crate::config::{models, rect_of, WidgetConfig, WidgetModel};
use crate::geometry::WidgetRect;

verus! {

/// No two entries share an id.
pub open spec fn ids_unique(s: Seq<WidgetModel>) -> bool {
    forall|i: int, j: int| 0 <= i < s.len() && 0 <= j < s.len() && i != j ==> s[i].id != s[j].id
}

/// Some entry has the id.
pub open spec fn has_id(s: Seq<WidgetModel>, id: Seq<char>) -> bool {
    exists|i: int| 0 <= i < s.len() && (#[trigger] s[i]).id == id
}

/// The entries whose id differs from `id`, in order.
pub open spec fn without_id(s: Seq<WidgetModel>, id: Seq<char>) -> Seq<WidgetModel> {
    s.filter(|m: WidgetModel| m.id != id)
}

/// Every entry with the id of `m` replaced by `m`.
pub open spec fn replaced(s: Seq<WidgetModel>, m: WidgetModel) -> Seq<WidgetModel> {
    s.map_values(|w: WidgetModel| if w.id == m.id { m } else { w })
}

/// The entries with the background flag of every entry with id `id` set to `bg`.
pub open spec fn with_background(s: Seq<WidgetModel>, id: Seq<char>, bg: bool) -> Seq<WidgetModel> {
    s.map_values(|w: WidgetModel| if w.id == id { WidgetModel { background: bg, ..w } } else { w })
}

/// The hit-test rectangles of the entries, in order.
pub open spec fn rects_of(s: Seq<WidgetModel>) -> Seq<WidgetRect> {
    s.map_values(|m: WidgetModel| rect_of(m))
}

/// Dropping an id that no entry has changes nothing.
pub proof fn lemma_without_absent(s: Seq<WidgetModel>, id: Seq<char>)
    requires
        !has_id(s, id),
    ensures
        without_id(s, id) == s,
    decreases s.len(),
{
    reveal_with_fuel(Seq::filter, 1);
    if s.len() > 0 {
        assert(!has_id(s.drop_last(), id)) by {
            if has_id(s.drop_last(), id) {
                let j = choose|j: int| 0 <= j < s.drop_last().len() && (#[trigger] s.drop_last()[j]).id == id;
                assert(s[j].id == id);
            }
        }
        lemma_without_absent(s.drop_last(), id);
        assert(s[s.len() - 1].id != id);
        assert(s.drop_last().push(s.last()) =~= s);
    }
}

/// With unique ids, dropping the id of the entry at `i` removes exactly that entry.
pub proof fn lemma_without_at(s: Seq<WidgetModel>, i: int)
    requires
        ids_unique(s),
        0 <= i < s.len(),
    ensures
        without_id(s, s[i].id) == s.remove(i),
    decreases s.len(),
{
    reveal_with_fuel(Seq::filter, 1);
    let id = s[i].id;
    let d = s.drop_last();
    if i == s.len() - 1 {
        assert(!has_id(d, id)) by {
            if has_id(d, id) {
                let j = choose|j: int| 0 <= j < d.len() && (#[trigger] d[j]).id == id;
                assert(s[j].id == s[i].id);
            }
        }
        lemma_without_absent(d, id);
        assert(s.remove(i) =~= d);
    } else {
        assert(ids_unique(d)) by {
            assert forall|a: int, b: int| 0 <= a < d.len() && 0 <= b < d.len() && a != b implies d[a].id != d[b].id by {
                assert(s[a].id != s[b].id);
            }
        }
        assert(d[i] == s[i]);
        lemma_without_at(d, i);
        assert(s.last().id != id);
        assert(s.remove(i) =~= d.remove(i).push(s.last()));
    }
}

/// Dropping an id keeps ids unique.
pub proof fn lemma_without_unique(s: Seq<WidgetModel>, id: Seq<char>)
    requires
        ids_unique(s),
    ensures
        ids_unique(without_id(s, id)),
        !has_id(without_id(s, id), id),
{
    if has_id(s, id) {
        let i = choose|i: int| 0 <= i < s.len() && (#[trigger] s[i]).id == id;
        lemma_without_at(s, i);
        let r = s.remove(i);
        assert forall|a: int, b: int| 0 <= a < r.len() && 0 <= b < r.len() && a != b implies r[a].id != r[b].id by {
            let sa = if a < i { a } else { a + 1 };
            let sb = if b < i { b } else { b + 1 };
            assert(r[a] == s[sa]);
            assert(r[b] == s[sb]);
        }
        if has_id(r, id) {
            let j = choose|j: int| 0 <= j < r.len() && (#[trigger] r[j]).id == id;
            let sj = if j < i { j } else { j + 1 };
            assert(r[j] == s[sj]);
        }
    } else {
        lemma_without_absent(s, id);
    }
}

/// Removing an id a second time changes nothing: after the first removal no
/// entry has the id, and dropping it again leaves the entries as they were.
pub proof fn lemma_remove_twice(s: Seq<WidgetModel>, id: Seq<char>)
    requires
        ids_unique(s),
    ensures
        !has_id(without_id(s, id), id),
        without_id(without_id(s, id), id) == without_id(s, id),
{
    lemma_without_unique(s, id);
    lemma_without_absent(without_id(s, id), id);
}

/// One mutation of the registry, as a value.
pub enum RegistryStep {
    Add(WidgetModel),
    Remove(Seq<char>),
    Update(WidgetModel),
}

/// The entries after one step, as `add`, `remove` and `update` leave them:
/// an add whose id is taken changes nothing.
pub open spec fn after_step(s: Seq<WidgetModel>, step: RegistryStep) -> Seq<WidgetModel> {
    match step {
        RegistryStep::Add(m) => if has_id(s, m.id) { s } else { s.push(m) },
        RegistryStep::Remove(id) => without_id(s, id),
        RegistryStep::Update(m) => replaced(s, m),
    }
}

/// The entries after a sequence of steps, in order.
pub open spec fn after_steps(s: Seq<WidgetModel>, steps: Seq<RegistryStep>) -> Seq<WidgetModel>
    decreases steps.len(),
{
    if steps.len() == 0 {
        s
    } else {
        after_step(after_steps(s, steps.drop_last()), steps.last())
    }
}

/// One step keeps ids unique.
pub proof fn lemma_step_keeps_unique(s: Seq<WidgetModel>, step: RegistryStep)
    requires
        ids_unique(s),
    ensures
        ids_unique(after_step(s, step)),
{
    match step {
        RegistryStep::Add(m) => {
            if !has_id(s, m.id) {
                let r = s.push(m);
                assert forall|a: int, b: int| 0 <= a < r.len() && 0 <= b < r.len() && a != b implies r[a].id != r[b].id by {
                    if a == s.len() {
                        assert(r[b] == s[b]);
                    } else if b == s.len() {
                        assert(r[a] == s[a]);
                    } else {
                        assert(r[a] == s[a] && r[b] == s[b]);
                    }
                }
            }
        },
        RegistryStep::Remove(id) => {
            lemma_without_unique(s, id);
        },
        RegistryStep::Update(m) => {
            let r = replaced(s, m);
            assert forall|a: int, b: int| 0 <= a < r.len() && 0 <= b < r.len() && a != b implies r[a].id != r[b].id by {
                assert(r[a].id == s[a].id);
                assert(r[b].id == s[b].id);
            }
        },
    }
}

/// For every sequence of adds, removes and updates, no two entries ever
/// share an id.
pub proof fn lemma_steps_keep_unique(s: Seq<WidgetModel>, steps: Seq<RegistryStep>)
    requires
        ids_unique(s),
    ensures
        ids_unique(after_steps(s, steps)),
    decreases steps.len(),
{
    if steps.len() > 0 {
        lemma_steps_keep_unique(s, steps.drop_last());
        lemma_step_keeps_unique(after_steps(s, steps.drop_last()), steps.last());
    }
}

/// Setting the background flag a second time to the same value changes
/// nothing, and leaves every id where it was.
pub proof fn lemma_background_twice(s: Seq<WidgetModel>, id: Seq<char>, bg: bool)
    ensures
        with_background(with_background(s, id, bg), id, bg) == with_background(s, id, bg),
        forall|i: int| 0 <= i < s.len() ==> (#[trigger] with_background(s, id, bg)[i]).id == s[i].id,
{
    assert(with_background(with_background(s, id, bg), id, bg) =~= with_background(s, id, bg));
}

/// The authoritative list of widget configurations, in insertion order.
pub struct Registry {
    widgets: Vec<WidgetConfig>,
}

impl View for Registry {
    type V = Seq<WidgetModel>;

    closed spec fn view(&self) -> Seq<WidgetModel> {
        models(self.widgets@)
    }
}

impl Registry {
    /// The registry's invariant: ids are unique.
    pub open spec fn wf(&self) -> bool {
        ids_unique(self@)
    }

    pub fn new() -> (r: Registry)
        ensures
            r.wf(),
            r@ == Seq::<WidgetModel>::empty(),
    {
        let r = Registry { widgets: Vec::new() };
        assert(r@ =~= Seq::<WidgetModel>::empty());
        r
    }

    pub fn len(&self) -> (r: usize)
        ensures
            r == self@.len(),
    {
        self.widgets.len()
    }

    /// A copy of every entry, in order.
    pub fn list(&self) -> (r: Vec<WidgetConfig>)
        ensures
            models(r@) == self@,
    {
        crate::config::duplicate_all(&self.widgets)
    }

    /// The position of the entry with the id, if any.
    pub fn find(&self, id: &String) -> (r: Option<usize>)
        requires
            self.wf(),
        ensures
            r.is_none() == !has_id(self@, id@),
            r matches Some(i) ==> i < self@.len() && self@[i as int].id == id@,
    {
        let mut i: usize = 0;
        while i < self.widgets.len()
            invariant
                self@ == models(self.widgets@),
                i <= self@.len(),
                forall|j: int| 0 <= j < i ==> (#[trigger] self@[j]).id != id@,
            decreases self@.len() - i,
        {
            if self.widgets[i].id == *id {
                assert(self@[i as int].id == id@);
                return Some(i);
            }
            i = i + 1;
        }
        None
    }

    /// The entry at a position.
    pub fn get_at(&self, i: usize) -> (r: &WidgetConfig)
        requires
            i < self@.len(),
        ensures
            r@ == self@[i as int],
    {
        &self.widgets[i]
    }

    pub fn contains(&self, id: &String) -> (r: bool)
        requires
            self.wf(),
        ensures
            r == has_id(self@, id@),
    {
        self.find(id).is_some()
    }

    /// The entry with the id, if any.
    pub fn get(&self, id: &String) -> (r: Option<WidgetConfig>)
        requires
            self.wf(),
        ensures
            r.is_none() == !has_id(self@, id@),
            r matches Some(c) ==> self@.contains(c@) && c@.id == id@,
    {
        match self.find(id) {
            Some(i) => Some(self.widgets[i].duplicate()),
            None => None,
        }
    }

    /// Appends an entry whose id is not yet taken.
    pub fn add(&mut self, config: WidgetConfig) -> (r: Result<(), WidgetError>)
        requires
            old(self).wf(),
        ensures
            final(self).wf(),
            r is Ok <==> !has_id(old(self)@, config@.id),
            r is Ok ==> final(self)@ == old(self)@.push(config@),
            r is Err ==> r == Err::<(), WidgetError>(WidgetError::DuplicateId) && final(self)@ == old(self)@,
            final(self)@ == after_step(old(self)@, RegistryStep::Add(config@)),
    {
        if self.contains(&config.id) {
            return Err(WidgetError::DuplicateId);
        }
        let ghost before = self@;
        self.widgets.push(config);
        assert(self@ =~= before.push(config@));
        Ok(())
    }

    /// Drops the entry with the id; an unknown id changes nothing.
    pub fn remove(&mut self, id: &String) -> (removed: bool)
        requires
            old(self).wf(),
        ensures
            final(self).wf(),
            removed == has_id(old(self)@, id@),
            final(self)@ == without_id(old(self)@, id@),
            final(self)@ == after_step(old(self)@, RegistryStep::Remove(id@)),
    {
        let ghost before = self@;
        let mut kept: Vec<WidgetConfig> = Vec::new();
        let mut removed = false;
        let mut i: usize = 0;
        while i < self.widgets.len()
            invariant
                before == models(self.widgets@),
                ids_unique(before),
                i <= before.len(),
                models(kept@) == without_id(before.subrange(0, i as int), id@),
                forall|k: int| 0 <= k < kept@.len() ==>
                    exists|j: int| 0 <= j < i && (#[trigger] kept@[k])@.id == #[trigger] before[j].id,
                ids_unique(models(kept@)),
                removed == exists|j: int| 0 <= j < i && (#[trigger] before[j]).id == id@,
            decreases before.len() - i,
        {
            proof {
                reveal_with_fuel(Seq::filter, 1);
                assert(before.subrange(0, i + 1).drop_last() =~= before.subrange(0, i as int));
                assert(before.subrange(0, i + 1).last() == before[i as int]);
                assert(before[i as int] == self.widgets@[i as int]@);
            }
            let same = self.widgets[i].id == *id;
            assert(same == (before[i as int].id == id@));
            if same {
                                assert(without_id(before.subrange(0, i + 1), id@) == without_id(before.subrange(0, i as int), id@));
                removed = true;
            } else {
                                assert(without_id(before.subrange(0, i + 1), id@) == without_id(before.subrange(0, i as int), id@).push(before[i as int]));
                let ghost old_kept = kept@;
                kept.push(self.widgets[i].duplicate());
                assert(models(kept@) =~= models(old_kept).push(before[i as int]));
                assert forall|k: int| 0 <= k < kept@.len() implies
                    exists|j: int| 0 <= j < i + 1 && (#[trigger] kept@[k])@.id == #[trigger] before[j].id by {
                    if k == old_kept.len() {
                        assert(kept@[k]@.id == before[i as int].id);
                    } else {
                        assert(kept@[k] == old_kept[k]);
                    }
                }
                assert forall|a: int, b: int| 0 <= a < kept@.len() && 0 <= b < kept@.len() && a != b implies
                    models(kept@)[a].id != models(kept@)[b].id by {
                    if a == old_kept.len() || b == old_kept.len() {
                        let o = if a == old_kept.len() { b } else { a };
                        assert(kept@[o] == old_kept[o]);
                        let j = choose|j: int| 0 <= j < i && (#[trigger] old_kept[o])@.id == #[trigger] before[j].id;
                        assert(before[j].id != before[i as int].id);
                    } else {
                        assert(models(kept@)[a] == models(old_kept)[a]);
                        assert(models(kept@)[b] == models(old_kept)[b]);
                    }
                }
            }
            proof {
                if removed {
                    assert(self.widgets@[i as int]@.id == id@ || exists|j: int| 0 <= j < i && (#[trigger] before[j]).id == id@);
                    if self.widgets@[i as int]@.id == id@ {
                        assert(before[i as int].id == id@);
                    }
                }
            }
            i = i + 1;
        }
        assert(before.subrange(0, before.len() as int) =~= before);
        self.widgets = kept;
        removed
    }

    /// Replaces the entry with the config's id by the config; an unknown id
    /// changes nothing.
    pub fn update(&mut self, config: WidgetConfig) -> (found: bool)
        requires
            old(self).wf(),
        ensures
            final(self).wf(),
            found == has_id(old(self)@, config@.id),
            final(self)@ == replaced(old(self)@, config@),
            final(self)@ == after_step(old(self)@, RegistryStep::Update(config@)),
    {
        let ghost before = self@;
        match self.find(&config.id) {
            Some(i) => {
                self.widgets.set(i, config);
                proof {
                    assert forall|k: int| 0 <= k < before.len() && k != i implies before[k].id != config@.id by {
                        assert(before[k].id != before[i as int].id);
                    }
                    assert(self@ =~= replaced(before, config@));
                }
                true
            },
            None => {
                assert(self@ =~= replaced(before, config@));
                false
            },
        }
    }

    /// Sets the background flag of the entry with the id; an unknown id
    /// changes nothing.
    pub fn set_background(&mut self, id: &String, background: bool) -> (found: bool)
        requires
            old(self).wf(),
        ensures
            final(self).wf(),
            found == has_id(old(self)@, id@),
            final(self)@ == with_background(old(self)@, id@, background),
    {
        let ghost before = self@;
        match self.find(id) {
            Some(i) => {
                let mut c = self.widgets[i].duplicate();
                c.background = background;
                self.widgets.set(i, c);
                proof {
                    assert forall|k: int| 0 <= k < before.len() && k != i implies before[k].id != id@ by {
                        assert(before[k].id != before[i as int].id);
                    }
                    assert(self@ =~= with_background(before, id@, background));
                }
                true
            },
            None => {
                assert(self@ =~= with_background(before, id@, background));
                false
            },
        }
    }

    /// Replaces every entry by those of the list, which must not repeat an id.
    pub fn replace_all(&mut self, list: Vec<WidgetConfig>) -> (r: Result<(), WidgetError>)
        requires
            old(self).wf(),
        ensures
            final(self).wf(),
            r is Ok <==> ids_unique(models(list@)),
            r is Ok ==> final(self)@ == models(list@),
            r is Err ==> r == Err::<(), WidgetError>(WidgetError::DuplicateId) && final(self)@ == old(self)@,
    {
        let mut fresh = Registry::new();
        let mut i: usize = 0;
        while i < list.len()
            invariant
                self@ == old(self)@,
                self.wf(),
                fresh.wf(),
                i <= list@.len(),
                fresh@ == models(list@).subrange(0, i as int),
            decreases list@.len() - i,
        {
            let ghost before = fresh@;
            if fresh.add(list[i].duplicate()).is_err() {
                proof {
                    let j = choose|j: int| 0 <= j < before.len() && (#[trigger] before[j]).id == list@[i as int]@.id;
                    assert(models(list@)[j].id == models(list@)[i as int].id);
                }
                return Err(WidgetError::DuplicateId);
            }
            assert(fresh@ =~= models(list@).subrange(0, i + 1));
            i = i + 1;
        }
        assert(models(list@).subrange(0, list@.len() as int) =~= models(list@));
        *self = fresh;
        Ok(())
    }

    /// The hit-test rectangles of the entries, in order.
    pub fn rects(&self) -> (r: Vec<WidgetRect>)
        ensures
            r@ == rects_of(self@),
    {
        let mut r: Vec<WidgetRect> = Vec::new();
        let mut i: usize = 0;
        while i < self.widgets.len()
            invariant
                i <= self.widgets@.len(),
                r@ == rects_of(models(self.widgets@)).subrange(0, i as int),
            decreases self.widgets@.len() - i,
        {
            r.push(self.widgets[i].rect());
            assert(r@ =~= rects_of(models(self.widgets@)).subrange(0, i + 1));
            i = i + 1;
        }
        assert(r@ =~= rects_of(self@));
        r
    }
}

} // verus!
