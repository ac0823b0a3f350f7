//! The forwarding handlers that run, one per exposed service instance, and how
//! each refresh of the configuration changes them: handlers of services no
//! longer exposed are stopped, services without a handler get one started,
//! and handlers that ended on their own are dropped.
use vstd::prelude::*;
use crate::config::ExposedService;

verus! {

/// Seconds to wait before loading the configuration again after it failed to load.
pub const CONFIG_RETRY_SECS: u64 = 15;

/// Seconds between two refreshes of the configuration.
pub const REFRESH_SECS: u64 = 30;

/// How long to wait before the next refresh: after a configuration that
/// loaded, the refresh interval; after one that failed to load (which changes
/// no handler), the retry interval.
pub fn next_refresh_secs(config_loaded: bool) -> (secs: u64)
    ensures
        secs == if config_loaded {
            REFRESH_SECS
        } else {
            CONFIG_RETRY_SECS
        },
{
    if config_loaded {
        REFRESH_SECS
    } else {
        CONFIG_RETRY_SECS
    }
}

/// The names of `services`, in order.
pub open spec fn names_of(services: Seq<ExposedService>) -> Seq<Seq<char>> {
    services.map_values(|s: ExposedService| s.name@)
}

/// The running ids whose service is not among `exposed`, in running order.
pub open spec fn ids_to_stop(running: Seq<Seq<char>>, exposed: Seq<Seq<char>>) -> Seq<Seq<char>>
    decreases running.len(),
{
    if running.len() == 0 {
        seq![]
    } else {
        let before = ids_to_stop(running.drop_last(), exposed);
        if exposed.contains(running.last()) {
            before
        } else {
            before.push(running.last())
        }
    }
}

/// For each exposed name that has no running handler, the first exposed
/// service of that name, in order of first appearance.
pub open spec fn services_to_start(exposed: Seq<ExposedService>, running: Seq<Seq<char>>) -> Seq<
    ExposedService,
>
    decreases exposed.len(),
{
    if exposed.len() == 0 {
        seq![]
    } else {
        let before = services_to_start(exposed.drop_last(), running);
        let s = exposed.last();
        if running.contains(s.name@) || names_of(exposed.drop_last()).contains(s.name@) {
            before
        } else {
            before.push(s)
        }
    }
}

/// The items of `s` whose flag in `finished` is not set, in order.
pub open spec fn keep_unfinished<T>(s: Seq<T>, finished: Seq<bool>) -> Seq<T>
    decreases s.len(),
{
    if s.len() == 0 {
        seq![]
    } else {
        let rest = keep_unfinished(s.drop_first(), finished.drop_first());
        if finished[0] {
            rest
        } else {
            seq![s[0]] + rest
        }
    }
}

/// What a refresh of the configuration changes: the ids of the handlers to
/// stop, and the services to start a handler for.
#[derive(Clone, Debug)]
pub struct HandlerPlan {
    pub stop: Vec<String>,
    pub start: Vec<ExposedService>,
}

/// Whether `h` is the handle recorded for `id`.
pub open spec fn recorded<H>(ids: Seq<Seq<char>>, handles: Seq<H>, id: Seq<char>, h: H) -> bool {
    exists|i: int| 0 <= i < ids.len() && ids[i] == id && handles[i] == h
}

/// The running handlers, by the id of the service instance each forwards; no
/// id occurs twice.
pub struct HandlerRegistry<H> {
    ids: Vec<String>,
    handles: Vec<H>,
}

/// Whether `name` is the name of one of the first `upto` services.
fn name_listed(services: &Vec<ExposedService>, upto: usize, name: &String) -> (found: bool)
    requires
        upto <= services.len(),
    ensures
        found == names_of(services@.take(upto as int)).contains(name@),
{
    let mut i: usize = 0;
    while i < upto
        invariant
            i <= upto <= services.len(),
            forall|k: int| 0 <= k < i ==> services@[k].name@ != name@,
        decreases upto - i,
    {
        if services[i].name == *name {
            assert(names_of(services@.take(upto as int))[i as int] == name@);
            return true;
        }
        i = i + 1;
    }
    assert forall|k: int| 0 <= k < names_of(services@.take(upto as int)).len() implies names_of(
        services@.take(upto as int),
    )[k] != name@ by {
        assert(services@.take(upto as int)[k] == services@[k]);
    }
    false
}

/// Whether `id` is among `ids`.
fn id_listed(ids: &Vec<String>, id: &String) -> (found: bool)
    ensures
        found == ids.deep_view().contains(id@),
{
    let mut i: usize = 0;
    while i < ids.len()
        invariant
            i <= ids.len(),
            forall|k: int| 0 <= k < i ==> ids.deep_view()[k] != id@,
        decreases ids.len() - i,
    {
        if ids[i] == *id {
            assert(ids.deep_view()[i as int] == id@);
            return true;
        }
        i = i + 1;
    }
    assert forall|k: int| 0 <= k < ids.deep_view().len() implies ids.deep_view()[k] != id@ by {}
    false
}

/// What `ids_to_stop` holds: the running ids that are not exposed.
pub proof fn lemma_ids_to_stop_contains(running: Seq<Seq<char>>, exposed: Seq<Seq<char>>, x: Seq<char>)
    ensures
        ids_to_stop(running, exposed).contains(x) <==> running.contains(x) && !exposed.contains(x),
    decreases running.len(),
{
    if running.len() > 0 {
        let r = running.drop_last();
        lemma_ids_to_stop_contains(r, exposed, x);
        let before = ids_to_stop(r, exposed);
        if running.contains(x) {
            let k = choose|k: int| 0 <= k < running.len() && running[k] == x;
            if k < running.len() - 1 {
                assert(r[k] == x);
            }
        }
        if r.contains(x) {
            let k = choose|k: int| 0 <= k < r.len() && r[k] == x;
            assert(running[k] == x);
        }
        if !exposed.contains(running.last()) {
            if before.push(running.last()).contains(x) {
                let k = choose|k: int| 0 <= k < before.len() + 1 && before.push(running.last())[k] == x;
                if k < before.len() {
                    assert(before[k] == x);
                }
            }
            if before.contains(x) {
                let k = choose|k: int| 0 <= k < before.len() && before[k] == x;
                assert(before.push(running.last())[k] == x);
            }
            assert(before.push(running.last())[before.len() as int] == running.last());
        }
    }
}

/// Whether the `i`-th service is the first of its name.
pub open spec fn first_of_its_name(services: Seq<ExposedService>, i: int) -> bool {
    forall|j: int| 0 <= j < i ==> services[j].name@ != services[i].name@
}

/// Every service to start is one of the exposed services itself, unchanged in
/// every field, namely the first exposed service of its name, and no handler of
/// that name runs.
pub proof fn lemma_started_services_are_exposed(
    exposed: Seq<ExposedService>,
    running: Seq<Seq<char>>,
)
    ensures
        forall|k: int|
            0 <= k < services_to_start(exposed, running).len() ==> exists|i: int|
                0 <= i < exposed.len() && #[trigger] services_to_start(exposed, running)[k]
                    == exposed[i] && first_of_its_name(exposed, i) && !running.contains(
                    exposed[i].name@,
                ),
    decreases exposed.len(),
{
    if exposed.len() > 0 {
        let e = exposed.drop_last();
        lemma_started_services_are_exposed(e, running);
        let before = services_to_start(e, running);
        let s = exposed.last();
        let n = exposed.len() - 1;
        assert forall|k: int| 0 <= k < services_to_start(exposed, running).len() implies exists|
            i: int,
        |
            0 <= i < exposed.len() && #[trigger] services_to_start(exposed, running)[k]
                == exposed[i] && first_of_its_name(exposed, i) && !running.contains(
                exposed[i].name@,
            ) by {
            let after = services_to_start(exposed, running);
            if k < before.len() {
                assert(after[k] == before[k]);
                let i = choose|i: int|
                    0 <= i < e.len() && #[trigger] before[k] == e[i] && first_of_its_name(e, i)
                        && !running.contains(e[i].name@);
                assert(exposed[i] == e[i]);
                assert forall|j: int| 0 <= j < i implies exposed[j].name@ != exposed[i].name@ by {
                    assert(exposed[j] == e[j]);
                }
            } else {
                assert(after == before.push(s));
                assert(after[k] == exposed[n]);
                assert(!names_of(e).contains(s.name@));
                assert forall|j: int| 0 <= j < n implies exposed[j].name@ != exposed[n].name@ by {
                    assert(names_of(e)[j] == e[j].name@);
                    assert(e[j] == exposed[j]);
                }
            }
        }
    }
}

/// The names of `services_to_start` are the exposed names that are not running,
/// each once.
pub proof fn lemma_services_to_start_names(exposed: Seq<ExposedService>, running: Seq<Seq<char>>)
    ensures
        names_of(services_to_start(exposed, running)).no_duplicates(),
        forall|x: Seq<char>|
            #![trigger names_of(services_to_start(exposed, running)).contains(x)]
            names_of(services_to_start(exposed, running)).contains(x) <==> names_of(
                exposed,
            ).contains(x) && !running.contains(x),
    decreases exposed.len(),
{
    if exposed.len() > 0 {
        let e = exposed.drop_last();
        lemma_services_to_start_names(e, running);
        let before = services_to_start(e, running);
        let s = exposed.last();
        assert(names_of(exposed) =~= names_of(e).push(s.name@));
        assert forall|x: Seq<char>|
            names_of(exposed).contains(x) <==> names_of(e).contains(x) || x == s.name@ by {
            if names_of(exposed).contains(x) {
                let k = choose|k: int| 0 <= k < names_of(exposed).len() && names_of(exposed)[k] == x;
                if k < names_of(e).len() {
                    assert(names_of(e)[k] == x);
                }
            }
            if names_of(e).contains(x) {
                let k = choose|k: int| 0 <= k < names_of(e).len() && names_of(e)[k] == x;
                assert(names_of(exposed)[k] == x);
            }
            assert(names_of(exposed)[names_of(e).len() as int] == s.name@);
        }
        if !(running.contains(s.name@) || names_of(e).contains(s.name@)) {
            let after = before.push(s);
            assert(names_of(after) =~= names_of(before).push(s.name@));
            assert forall|x: Seq<char>|
                names_of(after).contains(x) <==> names_of(before).contains(x) || x == s.name@ by {
                if names_of(after).contains(x) {
                    let k = choose|k: int| 0 <= k < names_of(after).len() && names_of(after)[k] == x;
                    if k < names_of(before).len() {
                        assert(names_of(before)[k] == x);
                    }
                }
                if names_of(before).contains(x) {
                    let k = choose|k: int|
                        0 <= k < names_of(before).len() && names_of(before)[k] == x;
                    assert(names_of(after)[k] == x);
                }
                assert(names_of(after)[names_of(before).len() as int] == s.name@);
            }
            assert forall|i: int, j: int|
                0 <= i < names_of(after).len() && 0 <= j < names_of(after).len() && i != j
                implies names_of(after)[i] != names_of(after)[j] by {
                if i == names_of(before).len() {
                    assert(names_of(before).contains(names_of(after)[j]));
                } else if j == names_of(before).len() {
                    assert(names_of(before).contains(names_of(after)[i]));
                }
            }
        }
    }
}

/// What `keep_unfinished` keeps comes from the sequence, and keeps it free of
/// duplicates.
proof fn lemma_keep_unfinished<T>(s: Seq<T>, finished: Seq<bool>)
    requires
        s.len() == finished.len(),
    ensures
        forall|x: T| #[trigger] keep_unfinished(s, finished).contains(x) ==> s.contains(x),
        s.no_duplicates() ==> keep_unfinished(s, finished).no_duplicates(),
    decreases s.len(),
{
    if s.len() > 0 {
        let rest_s = s.drop_first();
        lemma_keep_unfinished(rest_s, finished.drop_first());
        let rest = keep_unfinished(rest_s, finished.drop_first());
        assert forall|x: T| rest.contains(x) implies s.contains(x) by {
            let k = choose|k: int| 0 <= k < rest_s.len() && rest_s[k] == x;
            assert(s[k + 1] == x);
        }
        if !finished[0] {
            let kept = seq![s[0]] + rest;
            assert forall|x: T| kept.contains(x) implies s.contains(x) by {
                let k = choose|k: int| 0 <= k < kept.len() && kept[k] == x;
                if k > 0 {
                    assert(rest[k - 1] == x);
                } else {
                    assert(s[0] == x);
                }
            }
            if s.no_duplicates() {
                assert(rest_s.no_duplicates());
                assert(!rest_s.contains(s[0])) by {
                    if rest_s.contains(s[0]) {
                        let k = choose|k: int| 0 <= k < rest_s.len() && rest_s[k] == s[0];
                        assert(s[k + 1] == s[0]);
                    }
                }
                assert forall|i: int, j: int|
                    0 <= i < kept.len() && 0 <= j < kept.len() && i != j implies kept[i]
                    != kept[j] by {
                    if i == 0 {
                        assert(rest.contains(kept[j]));
                    } else if j == 0 {
                        assert(rest.contains(kept[i]));
                    } else {
                        assert(kept[i] == rest[i - 1]);
                        assert(kept[j] == rest[j - 1]);
                    }
                }
            }
        }
    }
}

/// An item flagged unfinished is kept; an item flagged finished is gone, when
/// nothing occurs twice.
proof fn lemma_keep_unfinished_at<T>(s: Seq<T>, finished: Seq<bool>, i: int)
    requires
        s.len() == finished.len(),
        0 <= i < s.len(),
    ensures
        !finished[i] ==> keep_unfinished(s, finished).contains(s[i]),
        s.no_duplicates() && finished[i] ==> !keep_unfinished(s, finished).contains(s[i]),
    decreases i,
{
    let rest_s = s.drop_first();
    let rest_f = finished.drop_first();
    let rest = keep_unfinished(rest_s, rest_f);
    lemma_keep_unfinished(rest_s, rest_f);
    if i == 0 {
        if !finished[0] {
            assert((seq![s[0]] + rest)[0] == s[0]);
        } else if s.no_duplicates() {
            if rest.contains(s[0]) {
                assert(rest_s.contains(s[0]));
                let k = choose|k: int| 0 <= k < rest_s.len() && rest_s[k] == s[0];
                assert(s[k + 1] == s[0]);
            }
        }
    } else {
        lemma_keep_unfinished_at(rest_s, rest_f, i - 1);
        assert(rest_s[i - 1] == s[i]);
        assert(rest_f[i - 1] == finished[i]);
        if !finished[0] {
            let kept = seq![s[0]] + rest;
            if rest.contains(s[i]) {
                let k = choose|k: int| 0 <= k < rest.len() && rest[k] == s[i];
                assert(kept[k + 1] == s[i]);
            }
            if kept.contains(s[i]) && s.no_duplicates() && finished[i] {
                let k = choose|k: int| 0 <= k < kept.len() && kept[k] == s[i];
                if k == 0 {
                    assert(s[0] == s[i]);
                } else {
                    assert(rest[k - 1] == s[i]);
                }
            }
        }
    }
}

/// The ids to stop occur once each when the running ids do.
proof fn lemma_ids_to_stop_distinct(running: Seq<Seq<char>>, exposed: Seq<Seq<char>>)
    requires
        running.no_duplicates(),
    ensures
        ids_to_stop(running, exposed).no_duplicates(),
    decreases running.len(),
{
    if running.len() > 0 {
        let r = running.drop_last();
        assert(r.no_duplicates());
        lemma_ids_to_stop_distinct(r, exposed);
        let before = ids_to_stop(r, exposed);
        if !exposed.contains(running.last()) {
            let after = before.push(running.last());
            lemma_ids_to_stop_contains(r, exposed, running.last());
            if r.contains(running.last()) {
                let k = choose|k: int| 0 <= k < r.len() && r[k] == running.last();
                assert(running[k] == running[running.len() - 1]);
            }
            assert forall|i: int, j: int|
                0 <= i < after.len() && 0 <= j < after.len() && i != j implies after[i]
                != after[j] by {
                if i == before.len() {
                    assert(before[j] == after[j]);
                } else if j == before.len() {
                    assert(before[i] == after[i]);
                } else {
                    assert(before[i] == after[i]);
                    assert(before[j] == after[j]);
                }
            }
        }
    }
}

/// A handler that ended on its own and was dropped is started again by the
/// next refresh, as long as its service is still exposed.
pub proof fn lemma_ended_handler_restarts(
    running: Seq<Seq<char>>,
    finished: Seq<bool>,
    exposed: Seq<ExposedService>,
    i: int,
)
    requires
        running.no_duplicates(),
        running.len() == finished.len(),
        0 <= i < running.len(),
        finished[i],
        names_of(exposed).contains(running[i]),
    ensures
        !keep_unfinished(running, finished).contains(running[i]),
        names_of(services_to_start(exposed, keep_unfinished(running, finished))).contains(
            running[i],
        ),
{
    lemma_keep_unfinished_at(running, finished, i);
    lemma_services_to_start_names(exposed, keep_unfinished(running, finished));
}

impl<H> HandlerRegistry<H> {
    /// The ids of the running handlers.
    pub closed spec fn ids(&self) -> Seq<Seq<char>> {
        self.ids.deep_view()
    }

    /// The handles of the running handlers, in the order of `ids`.
    pub closed spec fn handles(&self) -> Seq<H> {
        self.handles@
    }

    /// One handle per id, and no id twice: at most one handler per name.
    pub open spec fn wf(&self) -> bool {
        &&& self.ids().len() == self.handles().len()
        &&& self.ids().no_duplicates()
    }

    /// No handler runs.
    pub fn new() -> (r: HandlerRegistry<H>)
        ensures
            r.wf(),
            r.ids() == Seq::<Seq<char>>::empty(),
            r.handles() == Seq::<H>::empty(),
    {
        let r = HandlerRegistry { ids: Vec::new(), handles: Vec::new() };
        assert(r.ids() =~= Seq::<Seq<char>>::empty());
        r
    }

    /// How many handlers run.
    pub fn len(&self) -> (n: usize)
        requires
            self.wf(),
        ensures
            n == self.ids().len(),
            n == self.handles().len(),
    {
        self.ids.len()
    }

    /// The id of the `i`-th handler.
    pub fn id(&self, i: usize) -> (id: &String)
        requires
            self.wf(),
            i < self.ids().len(),
        ensures
            id@ == self.ids()[i as int],
    {
        &self.ids[i]
    }

    /// The handle of the `i`-th handler.
    pub fn handle(&self, i: usize) -> (h: &H)
        requires
            self.wf(),
            i < self.handles().len(),
        ensures
            *h == self.handles()[i as int],
    {
        &self.handles[i]
    }

    /// What the configuration `exposed` changes: stop the handlers whose id is
    /// not the name of an exposed service, and start one for each exposed name
    /// that has none, with the first service of that name.
    pub fn plan(&self, exposed: &Vec<ExposedService>) -> (plan: HandlerPlan)
        requires
            self.wf(),
        ensures
            plan.stop.deep_view() == ids_to_stop(self.ids(), names_of(exposed@)),
            plan.start@ == services_to_start(exposed@, self.ids()),
            forall|k: int|
                0 <= k < plan.start.len() ==> exists|i: int|
                    0 <= i < exposed.len() && #[trigger] plan.start@[k] == exposed@[i]
                        && first_of_its_name(exposed@, i) && !self.ids().contains(
                        exposed@[i].name@,
                    ),
    {
        proof {
            lemma_started_services_are_exposed(exposed@, self.ids());
        }
        let mut stop: Vec<String> = Vec::new();
        let mut i: usize = 0;
        assert(exposed@.take(exposed.len() as int) =~= exposed@);
        while i < self.ids.len()
            invariant
                i <= self.ids.len(),
                exposed@.take(exposed.len() as int) == exposed@,
                stop.deep_view() == ids_to_stop(self.ids().take(i as int), names_of(exposed@)),
            decreases self.ids.len() - i,
        {
            let ghost prefix = self.ids().take(i + 1);
            assert(prefix.drop_last() =~= self.ids().take(i as int));
            assert(prefix.last() == self.ids@[i as int]@);
            if !name_listed(exposed, exposed.len(), &self.ids[i]) {
                stop.push(self.ids[i].clone());
                assert(stop.deep_view() =~= ids_to_stop(prefix, names_of(exposed@)));
            }
            i = i + 1;
        }
        assert(self.ids().take(self.ids.len() as int) =~= self.ids());
        let mut start: Vec<ExposedService> = Vec::new();
        let mut j: usize = 0;
        while j < exposed.len()
            invariant
                j <= exposed.len(),
                start@ == services_to_start(exposed@.take(j as int), self.ids()),
            decreases exposed.len() - j,
        {
            let ghost prefix = exposed@.take(j + 1);
            assert(prefix.drop_last() =~= exposed@.take(j as int));
            assert(prefix.last() == exposed@[j as int]);
            let service = &exposed[j];
            if !id_listed(&self.ids, &service.name) && !name_listed(exposed, j, &service.name) {
                start.push(service.duplicate());
            }
            j = j + 1;
        }
        assert(exposed@.take(exposed.len() as int) =~= exposed@);
        HandlerPlan { stop, start }
    }

    /// Takes out the handler of `id`, if one runs.
    pub fn remove(&mut self, id: &String) -> (removed: Option<H>)
        requires
            old(self).wf(),
        ensures
            final(self).wf(),
            final(self).ids().to_set() == old(self).ids().to_set().remove(id@),
            match removed {
                Some(h) => exists|i: int|
                    {
                        &&& 0 <= i < old(self).ids().len()
                        &&& old(self).ids()[i] == id@
                        &&& h == old(self).handles()[i]
                        &&& final(self).ids() == old(self).ids().remove(i)
                        &&& final(self).handles() == old(self).handles().remove(i)
                    },
                None => !old(self).ids().contains(id@) && final(self).ids() == old(self).ids()
                    && final(self).handles() == old(self).handles(),
            },
    {
        let ghost ids0 = self.ids();
        let ghost handles0 = self.handles();
        let mut i: usize = 0;
        while i < self.ids.len()
            invariant
                i <= self.ids.len(),
                self.ids() == ids0,
                self.handles() == handles0,
                ids0 == old(self).ids(),
                handles0 == old(self).handles(),
                self.wf(),
                forall|k: int| 0 <= k < i ==> ids0[k] != id@,
            decreases self.ids.len() - i,
        {
            if self.ids[i] == *id {
                assert(ids0[i as int] == id@);
                self.ids.remove(i);
                let h = self.handles.remove(i);
                assert(self.ids() =~= ids0.remove(i as int));
                assert(self.handles() =~= handles0.remove(i as int));
                assert(h == handles0[i as int]);
                assert forall|a: int, b: int|
                    0 <= a < self.ids().len() && 0 <= b < self.ids().len() && a != b implies self.ids()[a]
                    != self.ids()[b] by {
                    let oa = if a < i { a } else { a + 1 };
                    let ob = if b < i { b } else { b + 1 };
                    assert(self.ids()[a] == ids0[oa]);
                    assert(self.ids()[b] == ids0[ob]);
                }
                assert forall|x: Seq<char>|
                    self.ids().contains(x) <==> ids0.contains(x) && x != id@ by {
                    if self.ids().contains(x) {
                        let a = choose|a: int| 0 <= a < self.ids().len() && self.ids()[a] == x;
                        let oa = if a < i { a } else { a + 1 };
                        assert(ids0[oa] == x);
                    }
                    if ids0.contains(x) && x != id@ {
                        let o = choose|o: int| 0 <= o < ids0.len() && ids0[o] == x;
                        if o < i {
                            assert(self.ids()[o] == x);
                        } else {
                            assert(o != i);
                            assert(self.ids()[o - 1] == x);
                        }
                    }
                }
                assert(self.ids().to_set() =~= ids0.to_set().remove(id@));
                return Some(h);
            }
            i = i + 1;
        }
        assert(!ids0.contains(id@));
        assert(self.ids().to_set() =~= ids0.to_set().remove(id@));
        None
    }

    /// Records `handle` as the handler of `id`; a handler already recorded
    /// for `id` is handed back.
    pub fn insert(&mut self, id: String, handle: H) -> (replaced: Option<H>)
        requires
            old(self).wf(),
        ensures
            final(self).wf(),
            final(self).ids().to_set() == old(self).ids().to_set().insert(id@),
            match replaced {
                Some(h) => exists|i: int|
                    {
                        &&& 0 <= i < old(self).ids().len()
                        &&& old(self).ids()[i] == id@
                        &&& h == old(self).handles()[i]
                        &&& final(self).ids() == old(self).ids()
                        &&& final(self).handles() == old(self).handles().update(i, handle)
                    },
                None => {
                    &&& !old(self).ids().contains(id@)
                    &&& final(self).ids() == old(self).ids().push(id@)
                    &&& final(self).handles() == old(self).handles().push(handle)
                },
            },
    {
        let ghost ids0 = self.ids();
        let ghost handles0 = self.handles();
        let mut i: usize = 0;
        while i < self.ids.len()
            invariant
                i <= self.ids.len(),
                self.ids() == ids0,
                self.handles() == handles0,
                ids0 == old(self).ids(),
                handles0 == old(self).handles(),
                self.wf(),
                forall|k: int| 0 <= k < i ==> ids0[k] != id@,
            decreases self.ids.len() - i,
        {
            if self.ids[i] == id {
                assert(ids0[i as int] == id@);
                assert(ids0.contains(id@));
                let old_handle = self.handles.remove(i);
                self.handles.insert(i, handle);
                assert(self.handles() =~= handles0.update(i as int, handle));
                assert(old_handle == handles0[i as int]);
                assert(ids0.to_set() =~= ids0.to_set().insert(id@));
                return Some(old_handle);
            }
            i = i + 1;
        }
        assert(!ids0.contains(id@));
        self.ids.push(id);
        self.handles.push(handle);
        assert(self.ids() =~= ids0.push(id@));
        assert forall|a: int, b: int|
            0 <= a < self.ids().len() && 0 <= b < self.ids().len() && a != b implies self.ids()[a]
            != self.ids()[b] by {
            if a == ids0.len() {
                assert(self.ids()[b] == ids0[b]);
            } else if b == ids0.len() {
                assert(self.ids()[a] == ids0[a]);
            }
        }
        assert forall|x: Seq<char>| self.ids().contains(x) <==> ids0.contains(x) || x == id@ by {
            if self.ids().contains(x) {
                let a = choose|a: int| 0 <= a < self.ids().len() && self.ids()[a] == x;
                if a < ids0.len() {
                    assert(ids0[a] == x);
                }
            }
            if ids0.contains(x) {
                let o = choose|o: int| 0 <= o < ids0.len() && ids0[o] == x;
                assert(self.ids()[o] == x);
            }
            assert(self.ids()[ids0.len() as int] == id@);
        }
        assert(self.ids().to_set() =~= ids0.to_set().insert(id@));
        None
    }

    /// Stops what `plan` (made by `plan` for `exposed`) stops: takes out the
    /// handler of each id to stop, and hands back their handles in the plan's
    /// order. What runs afterwards is the exposed names except those the plan
    /// starts; every remaining handler keeps its handle.
    pub fn stop_planned(&mut self, exposed: &Vec<ExposedService>, plan: &HandlerPlan) -> (stopped:
        Vec<H>)
        requires
            old(self).wf(),
            plan.stop.deep_view() == ids_to_stop(old(self).ids(), names_of(exposed@)),
            plan.start@ == services_to_start(exposed@, old(self).ids()),
        ensures
            final(self).wf(),
            final(self).ids().to_set() == names_of(exposed@).to_set().difference(
                names_of(plan.start@).to_set(),
            ),
            names_of(plan.start@).no_duplicates(),
            names_of(plan.start@).to_set().subset_of(names_of(exposed@).to_set()),
            stopped.len() == plan.stop.len(),
            forall|k: int|
                0 <= k < stopped.len() ==> recorded(
                    old(self).ids(),
                    old(self).handles(),
                    plan.stop.deep_view()[k],
                    #[trigger] stopped@[k],
                ),
            forall|i: int|
                0 <= i < final(self).ids().len() ==> recorded(
                    old(self).ids(),
                    old(self).handles(),
                    #[trigger] final(self).ids()[i],
                    final(self).handles()[i],
                ),
    {
        let ghost ids0 = self.ids();
        let ghost handles0 = self.handles();
        let ghost stop = plan.stop.deep_view();
        proof {
            lemma_plan_converges(ids0, exposed@);
            lemma_ids_to_stop_distinct(ids0, names_of(exposed@));
            assert forall|x: Seq<char>| stop.contains(x) implies ids0.contains(x) by {
                lemma_ids_to_stop_contains(ids0, names_of(exposed@), x);
            }
            assert forall|i: int| 0 <= i < ids0.len() implies recorded(
                ids0,
                handles0,
                #[trigger] ids0[i],
                handles0[i],
            ) by {}
        }
        let mut stopped: Vec<H> = Vec::new();
        let mut k: usize = 0;
        assert(stop.take(0).to_set() =~= Set::<Seq<char>>::empty());
        assert(ids0.to_set().difference(stop.take(0).to_set()) =~= ids0.to_set());
        while k < plan.stop.len()
            invariant
                k <= plan.stop.len(),
                stop == plan.stop.deep_view(),
                stop.no_duplicates(),
                forall|x: Seq<char>| stop.contains(x) ==> ids0.contains(x),
                ids0 == old(self).ids(),
                handles0 == old(self).handles(),
                self.wf(),
                self.ids().to_set() == ids0.to_set().difference(stop.take(k as int).to_set()),
                stopped.len() == k,
                forall|j: int|
                    0 <= j < k ==> recorded(ids0, handles0, stop[j], #[trigger] stopped@[j]),
                forall|i: int|
                    0 <= i < self.ids().len() ==> recorded(
                        ids0,
                        handles0,
                        #[trigger] self.ids()[i],
                        self.handles()[i],
                    ),
            decreases plan.stop.len() - k,
        {
            let ghost id = stop[k as int];
            assert(stop.contains(id));
            let ghost next = stop.take(k + 1);
            let ghost prev = stop.take(k as int);
            assert(!prev.contains(id)) by {
                if prev.contains(id) {
                    let j = choose|j: int| 0 <= j < prev.len() && prev[j] == id;
                    assert(stop[j] == stop[k as int]);
                }
            }
            assert(self.ids().to_set().contains(id));
            let ghost cur_ids = self.ids();
            let ghost cur_handles = self.handles();
            let ghost prev_stopped = stopped@;
            let removed = self.remove(&plan.stop[k]);
            match removed {
                Some(h) => {
                    let ghost i = choose|i: int|
                        {
                            &&& 0 <= i < cur_ids.len()
                            &&& cur_ids[i] == id
                            &&& h == cur_handles[i]
                            &&& self.ids() == cur_ids.remove(i)
                            &&& self.handles() == cur_handles.remove(i)
                        };
                    assert(recorded(ids0, handles0, cur_ids[i], cur_handles[i]));
                    stopped.push(h);
                    assert forall|a: int| 0 <= a < self.ids().len() implies recorded(
                        ids0,
                        handles0,
                        #[trigger] self.ids()[a],
                        self.handles()[a],
                    ) by {
                        let oa = if a < i {
                            a
                        } else {
                            a + 1
                        };
                        assert(self.ids()[a] == cur_ids[oa]);
                        assert(self.handles()[a] == cur_handles[oa]);
                        assert(recorded(ids0, handles0, cur_ids[oa], cur_handles[oa]));
                    }
                    assert forall|j: int| 0 <= j < k + 1 implies recorded(
                        ids0,
                        handles0,
                        stop[j],
                        #[trigger] stopped@[j],
                    ) by {
                        if j < k {
                            assert(stopped@[j] == prev_stopped[j]);
                        }
                    }
                },
                None => {
                    assert(false);
                },
            }
            assert forall|x: Seq<char>| next.contains(x) <==> prev.contains(x) || x == id by {
                if next.contains(x) {
                    let j = choose|j: int| 0 <= j < next.len() && next[j] == x;
                    if j < k {
                        assert(prev[j] == x);
                    }
                }
                if prev.contains(x) {
                    let j = choose|j: int| 0 <= j < prev.len() && prev[j] == x;
                    assert(next[j] == x);
                }
                assert(next[k as int] == id);
            }
            assert(self.ids().to_set() =~= ids0.to_set().difference(next.to_set()));
            k = k + 1;
        }
        assert(stop.take(plan.stop.len() as int) =~= stop);
        assert(self.ids().to_set() =~= names_of(exposed@).to_set().difference(
            names_of(plan.start@).to_set(),
        ));
        assert forall|x: Seq<char>| names_of(plan.start@).to_set().contains(x) implies names_of(
            exposed@,
        ).to_set().contains(x) by {}
        stopped
    }

    /// Records the handles of the services that `plan` starts, one per
    /// service in the plan's order, after its stops are done. Afterwards
    /// exactly the exposed names run.
    pub fn start_planned(
        &mut self,
        exposed: &Vec<ExposedService>,
        plan: &HandlerPlan,
        started: Vec<H>,
    )
        requires
            old(self).wf(),
            started.len() == plan.start.len(),
            old(self).ids().to_set() == names_of(exposed@).to_set().difference(
                names_of(plan.start@).to_set(),
            ),
            names_of(plan.start@).no_duplicates(),
            names_of(plan.start@).to_set().subset_of(names_of(exposed@).to_set()),
        ensures
            final(self).wf(),
            final(self).ids().to_set() == names_of(exposed@).to_set(),
            final(self).ids() == old(self).ids() + names_of(plan.start@),
            final(self).handles() == old(self).handles() + started@,
    {
        let ghost ids0 = self.ids();
        let ghost handles0 = self.handles();
        let ghost names = names_of(plan.start@);
        let ghost all = started@;
        let mut rest = started;
        let mut k: usize = 0;
        assert(names.take(0) =~= Seq::<Seq<char>>::empty());
        assert(ids0 + names.take(0) =~= ids0);
        assert(handles0 + all.take(0) =~= handles0);
        assert(all.subrange(0, all.len() as int) =~= all);
        while k < plan.start.len()
            invariant
                k <= plan.start.len(),
                names == names_of(plan.start@),
                names.no_duplicates(),
                all.len() == plan.start.len(),
                ids0.to_set() == names_of(exposed@).to_set().difference(names.to_set()),
                self.wf(),
                self.ids() == ids0 + names.take(k as int),
                self.handles() == handles0 + all.take(k as int),
                rest@ == all.subrange(k as int, all.len() as int),
            decreases plan.start.len() - k,
        {
            let ghost name = names[k as int];
            assert(name == plan.start@[k as int].name@);
            assert(!self.ids().contains(name)) by {
                if self.ids().contains(name) {
                    let a = choose|a: int| 0 <= a < self.ids().len() && self.ids()[a] == name;
                    if a < ids0.len() {
                        assert(ids0[a] == name);
                        assert(ids0.to_set().contains(name));
                        assert(names.to_set().contains(name));
                    } else {
                        assert(names[a - ids0.len()] == name);
                    }
                }
            }
            let h = rest.remove(0);
            assert(h == all[k as int]);
            let replaced = self.insert(plan.start[k].name.clone(), h);
            assert(replaced is None);
            assert(self.ids() =~= ids0 + names.take(k + 1));
            assert(self.handles() =~= handles0 + all.take(k + 1));
            assert(rest@ =~= all.subrange(k + 1, all.len() as int));
            k = k + 1;
        }
        assert(names.take(plan.start.len() as int) =~= names);
        assert(all.take(plan.start.len() as int) =~= all);
        assert forall|x: Seq<char>| self.ids().contains(x) <==> names_of(exposed@).contains(x) by {
            if self.ids().contains(x) {
                let a = choose|a: int| 0 <= a < self.ids().len() && self.ids()[a] == x;
                if a < ids0.len() {
                    assert(ids0[a] == x);
                    assert(ids0.to_set().contains(x));
                } else {
                    assert(names[a - ids0.len()] == x);
                    assert(names.to_set().contains(x));
                }
            }
            if names_of(exposed@).contains(x) {
                if names.contains(x) {
                    let b = choose|b: int| 0 <= b < names.len() && names[b] == x;
                    assert(self.ids()[ids0.len() + b] == x);
                } else {
                    assert(ids0.to_set().contains(x));
                    let a = choose|a: int| 0 <= a < ids0.len() && ids0[a] == x;
                    assert(self.ids()[a] == x);
                }
            }
        }
        assert(self.ids().to_set() =~= names_of(exposed@).to_set());
    }

    /// Applies `plan`, made by `plan` for `exposed`: stops its handlers and
    /// hands back their handles, and records `started`, the handles of the
    /// services it starts, one per service in order. Afterwards exactly the
    /// exposed names run, each with one handler.
    pub fn apply(&mut self, exposed: &Vec<ExposedService>, plan: &HandlerPlan, started: Vec<H>) -> (stopped:
        Vec<H>)
        requires
            old(self).wf(),
            plan.stop.deep_view() == ids_to_stop(old(self).ids(), names_of(exposed@)),
            plan.start@ == services_to_start(exposed@, old(self).ids()),
            started.len() == plan.start.len(),
        ensures
            final(self).wf(),
            final(self).ids().to_set() == names_of(exposed@).to_set(),
            stopped.len() == plan.stop.len(),
            forall|k: int|
                0 <= k < stopped.len() ==> recorded(
                    old(self).ids(),
                    old(self).handles(),
                    plan.stop.deep_view()[k],
                    #[trigger] stopped@[k],
                ),
            forall|k: int|
                0 <= k < started.len() ==> recorded(
                    final(self).ids(),
                    final(self).handles(),
                    plan.start@[k].name@,
                    #[trigger] started@[k],
                ),
            forall|i: int|
                0 <= i < final(self).ids().len() && old(self).ids().contains(
                    #[trigger] final(self).ids()[i],
                ) ==> recorded(
                    old(self).ids(),
                    old(self).handles(),
                    final(self).ids()[i],
                    final(self).handles()[i],
                ),
    {
        let ghost ids0 = self.ids();
        let ghost handles0 = self.handles();
        proof {
            lemma_services_to_start_names(exposed@, ids0);
        }
        let stopped = self.stop_planned(exposed, plan);
        let ghost mid_ids = self.ids();
        let ghost mid_handles = self.handles();
        let ghost given = started@;
        self.start_planned(exposed, plan, started);
        assert forall|i: int|
            0 <= i < self.ids().len() && ids0.contains(#[trigger] self.ids()[i]) implies recorded(
            ids0,
            handles0,
            self.ids()[i],
            self.handles()[i],
        ) by {
            if i < mid_ids.len() {
                assert(self.ids()[i] == mid_ids[i]);
                assert(self.handles()[i] == mid_handles[i]);
                assert(recorded(ids0, handles0, mid_ids[i], mid_handles[i]));
            } else {
                let k = i - mid_ids.len();
                assert(self.ids()[i] == names_of(plan.start@)[k]);
                assert(names_of(plan.start@).contains(self.ids()[i]));
            }
        }
        assert forall|k: int| 0 <= k < given.len() implies recorded(
            self.ids(),
            self.handles(),
            plan.start@[k].name@,
            #[trigger] given[k],
        ) by {
            let i = mid_ids.len() + k;
            assert(self.ids()[i] == names_of(plan.start@)[k]);
            assert(self.handles()[i] == given[k]);
        }
        stopped
    }

    /// Drops the handlers flagged in `finished` (one flag per handler, in order).
    pub fn retain_unfinished(&mut self, finished: &Vec<bool>)
        requires
            old(self).wf(),
            finished@.len() == old(self).ids().len(),
        ensures
            final(self).wf(),
            final(self).ids() == keep_unfinished(old(self).ids(), finished@),
            final(self).handles() == keep_unfinished(old(self).handles(), finished@),
            final(self).ids().to_set().subset_of(old(self).ids().to_set()),
            forall|i: int|
                0 <= i < old(self).ids().len() ==> (final(self).ids().contains(
                    #[trigger] old(self).ids()[i],
                ) <==> !finished@[i]),
    {
        let ghost ids0 = self.ids();
        let ghost handles0 = self.handles();
        let ghost n = ids0.len() as int;
        let mut i: usize = self.ids.len();
        assert(ids0.subrange(n, n) =~= Seq::<Seq<char>>::empty());
        assert(handles0.subrange(n, n) =~= Seq::<H>::empty());
        assert(ids0.subrange(0, n) =~= ids0);
        assert(handles0.subrange(0, n) =~= handles0);
        while i > 0
            invariant
                i <= n,
                n == ids0.len(),
                n == handles0.len(),
                n == finished@.len(),
                self.ids@.len() == self.handles@.len(),
                self.ids() == ids0.subrange(0, i as int) + keep_unfinished(
                    ids0.subrange(i as int, n),
                    finished@.subrange(i as int, n),
                ),
                self.handles() == handles0.subrange(0, i as int) + keep_unfinished(
                    handles0.subrange(i as int, n),
                    finished@.subrange(i as int, n),
                ),
            decreases i,
        {
            i = i - 1;
            let ghost si = ids0.subrange(i as int, n);
            let ghost sh = handles0.subrange(i as int, n);
            let ghost sf = finished@.subrange(i as int, n);
            assert(si.drop_first() =~= ids0.subrange(i + 1, n));
            assert(sh.drop_first() =~= handles0.subrange(i + 1, n));
            assert(sf.drop_first() =~= finished@.subrange(i + 1, n));
            let ghost ki = keep_unfinished(ids0.subrange(i + 1, n), finished@.subrange(i + 1, n));
            let ghost kh = keep_unfinished(
                handles0.subrange(i + 1, n),
                finished@.subrange(i + 1, n),
            );
            if finished[i] {
                let ghost cur = self.ids();
                assert(cur =~= ids0.subrange(0, i + 1) + ki);
                self.ids.remove(i);
                self.handles.remove(i);
                assert(self.ids() =~= cur.remove(i as int));
                assert(self.ids() =~= ids0.subrange(0, i as int) + keep_unfinished(si, sf));
                assert(self.handles() =~= handles0.subrange(0, i as int) + keep_unfinished(sh, sf));
            } else {
                assert(self.ids() =~= ids0.subrange(0, i as int) + keep_unfinished(si, sf));
                assert(self.handles() =~= handles0.subrange(0, i as int) + keep_unfinished(sh, sf));
            }
        }
        assert(ids0.subrange(0, 0) =~= Seq::<Seq<char>>::empty());
        assert(handles0.subrange(0, 0) =~= Seq::<H>::empty());
        assert(ids0.subrange(0, n) =~= ids0);
        assert(handles0.subrange(0, n) =~= handles0);
        assert(finished@.subrange(0, n) =~= finished@);
        assert(self.ids() =~= keep_unfinished(ids0, finished@));
        assert(self.handles() =~= keep_unfinished(handles0, finished@));
        proof {
            lemma_keep_unfinished(ids0, finished@);
            assert forall|i: int| 0 <= i < ids0.len() implies (self.ids().contains(
                #[trigger] ids0[i],
            ) <==> !finished@[i]) by {
                lemma_keep_unfinished_at(ids0, finished@, i);
            }
        }
    }
}

/// A registry runs at most one handler per name: no id occurs twice, and
/// each id has exactly one handle.
pub proof fn lemma_one_handler_per_name<H>(r: HandlerRegistry<H>)
    requires
        r.wf(),
    ensures
        forall|i: int, j: int|
            0 <= i < r.ids().len() && 0 <= j < r.ids().len() && r.ids()[i] == r.ids()[j] ==> i
                == j,
        r.ids().len() == r.handles().len(),
{
}

/// A refresh converges: once the planned handlers are stopped and the planned
/// ones started, the running ids are exactly the names of the exposed services.
/// The plan stops only running handlers of services no longer exposed, and
/// starts handlers only for exposed names that have none, each name once.
pub proof fn lemma_plan_converges(running: Seq<Seq<char>>, exposed: Seq<ExposedService>)
    ensures
        running.to_set().difference(ids_to_stop(running, names_of(exposed)).to_set()).union(
            names_of(services_to_start(exposed, running)).to_set(),
        ) == names_of(exposed).to_set(),
        ids_to_stop(running, names_of(exposed)).to_set() == running.to_set().difference(
            names_of(exposed).to_set(),
        ),
        names_of(services_to_start(exposed, running)).to_set() == names_of(
            exposed,
        ).to_set().difference(running.to_set()),
        names_of(services_to_start(exposed, running)).no_duplicates(),
{
    let stop = ids_to_stop(running, names_of(exposed));
    let start = names_of(services_to_start(exposed, running));
    lemma_services_to_start_names(exposed, running);
    assert forall|x: Seq<char>| stop.contains(x) <==> running.contains(x) && !names_of(
        exposed,
    ).contains(x) by {
        lemma_ids_to_stop_contains(running, names_of(exposed), x);
    }
    assert(stop.to_set() =~= running.to_set().difference(names_of(exposed).to_set()));
    assert(start.to_set() =~= names_of(exposed).to_set().difference(running.to_set()));
    assert(running.to_set().difference(stop.to_set()).union(start.to_set()) =~= names_of(
        exposed,
    ).to_set());
}

/// A refresh with an unchanged configuration changes nothing: when the running
/// ids are exactly the exposed names, nothing is stopped and nothing started.
pub proof fn lemma_plan_stable(running: Seq<Seq<char>>, exposed: Seq<ExposedService>)
    requires
        running.to_set() == names_of(exposed).to_set(),
    ensures
        ids_to_stop(running, names_of(exposed)) == Seq::<Seq<char>>::empty(),
        services_to_start(exposed, running) == Seq::<ExposedService>::empty(),
{
    lemma_plan_converges(running, exposed);
    let stop = ids_to_stop(running, names_of(exposed));
    let start = services_to_start(exposed, running);
    if stop.len() > 0 {
        assert(stop.to_set().contains(stop[0]));
    }
    if start.len() > 0 {
        assert(names_of(start)[0] == start[0].name@);
        assert(names_of(start).to_set().contains(start[0].name@));
    }
}

} // verus!
