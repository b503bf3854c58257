//! Platform plugins: the order they run in, and how their before-send
//! hooks combine into one prepared message.

pub mod group_management;
pub mod real_context;

use vstd::prelude::*;
use crate::text::chars_of;

verus! {

/// Where a plugin keeps a value: plugin, platform, bot account and a
/// conversation (or a per-feature keyspace in its place).
pub struct PlatformPluginScopeKey {
    pub plugin_id: String,
    pub platform: String,
    pub account_id: String,
    pub conversation_kind: String,
    pub conversation_id: String,
}

/// A plugin's identity, rank and default switch.
pub struct PluginDescriptor {
    pub id: String,
    pub priority: i32,
    pub default_enabled: bool,
}

/// Lexicographic order of texts by character (which is the byte order of
/// their UTF-8 encodings).
pub open spec fn text_less(a: Seq<char>, b: Seq<char>) -> bool
    decreases a.len(),
{
    if a.len() == 0 {
        b.len() > 0
    } else if b.len() == 0 {
        false
    } else if a[0] != b[0] {
        a[0] < b[0]
    } else {
        text_less(a.drop_first(), b.drop_first())
    }
}

pub proof fn lemma_text_less_irreflexive(a: Seq<char>)
    ensures
        !text_less(a, a),
    decreases a.len(),
{
    if a.len() > 0 {
        lemma_text_less_irreflexive(a.drop_first());
    }
}

pub proof fn lemma_text_less_transitive(a: Seq<char>, b: Seq<char>, c: Seq<char>)
    requires
        text_less(a, b),
        text_less(b, c),
    ensures
        text_less(a, c),
    decreases a.len(),
{
    if a.len() > 0 && b.len() > 0 && c.len() > 0 && a[0] == b[0] && b[0] == c[0] {
        lemma_text_less_transitive(a.drop_first(), b.drop_first(), c.drop_first());
    }
}

/// A plugin with rank and id `a` runs before one with `b`: higher priority
/// first, then by id.
pub open spec fn runs_before(a: (i32, Seq<char>), b: (i32, Seq<char>)) -> bool {
    a.0 > b.0 || (a.0 == b.0 && text_less(a.1, b.1))
}

pub proof fn lemma_runs_before_irreflexive(a: (i32, Seq<char>))
    ensures
        !runs_before(a, a),
{
    lemma_text_less_irreflexive(a.1);
}

pub proof fn lemma_runs_before_transitive(a: (i32, Seq<char>), b: (i32, Seq<char>), c: (i32, Seq<char>))
    requires
        runs_before(a, b),
        runs_before(b, c),
    ensures
        runs_before(a, c),
{
    if a.0 == b.0 && b.0 == c.0 {
        lemma_text_less_transitive(a.1, b.1, c.1);
    }
}

pub open spec fn plugin_keys(plugins: Seq<PluginDescriptor>) -> Seq<(i32, Seq<char>)> {
    Seq::new(plugins.len(), |i: int| (plugins[i].priority, plugins[i].id@))
}

/// `order` lists every plugin once, none runs after one it should run
/// before, and plugins of equal rank and id keep their given order.
pub open spec fn is_run_order(keys: Seq<(i32, Seq<char>)>, order: Seq<usize>) -> bool {
    &&& order.len() == keys.len()
    &&& forall|i: int| 0 <= i < order.len() ==> #[trigger] order[i] < keys.len()
    &&& forall|i: int, j: int| 0 <= i < j < order.len() ==> #[trigger] order[i] != #[trigger] order[j]
    &&& forall|i: int, j: int|
        0 <= i < j < order.len() ==> !runs_before(keys[#[trigger] order[j] as int], keys[#[trigger] order[i] as int])
    &&& forall|i: int, j: int|
        0 <= i < j < order.len() && keys[#[trigger] order[i] as int] == keys[#[trigger] order[j] as int]
            ==> order[i] < order[j]
}

fn text_less_exec(a: &Vec<char>, b: &Vec<char>) -> (r: bool)
    ensures
        r == text_less(a@, b@),
{
    let mut i: usize = 0;
    assert(a@.skip(0) =~= a@);
    assert(b@.skip(0) =~= b@);
    while i < a.len() && i < b.len() && a[i] == b[i]
        invariant
            i <= a@.len(),
            i <= b@.len(),
            text_less(a@.skip(i as int), b@.skip(i as int)) == text_less(a@, b@),
        decreases a.len() - i,
    {
        proof {
            assert(a@.skip(i as int).drop_first() =~= a@.skip(i as int + 1));
            assert(b@.skip(i as int).drop_first() =~= b@.skip(i as int + 1));
        }
        i = i + 1;
    }
    proof {
        if i < a@.len() && i < b@.len() {
            assert(a@.skip(i as int)[0] == a@[i as int]);
            assert(b@.skip(i as int)[0] == b@[i as int]);
        }
    }
    if i == a.len() {
        i < b.len()
    } else if i == b.len() {
        false
    } else {
        a[i] < b[i]
    }
}

fn runs_before_exec(plugins: &Vec<PluginDescriptor>, ids: &Vec<Vec<char>>, x: usize, y: usize) -> (r: bool)
    requires
        x < plugins@.len(),
        y < plugins@.len(),
        ids@.len() == plugins@.len(),
        forall|k: int| 0 <= k < ids@.len() ==> #[trigger] ids@[k]@ == plugins@[k].id@,
    ensures
        r == runs_before(plugin_keys(plugins@)[x as int], plugin_keys(plugins@)[y as int]),
{
    let px = plugins[x].priority;
    let py = plugins[y].priority;
    px > py || (px == py && text_less_exec(&ids[x], &ids[y]))
}

/// The order plugins run in: by priority, highest first, then by id; a
/// stable sort of the given order.
pub fn run_order(plugins: &Vec<PluginDescriptor>) -> (r: Vec<usize>)
    ensures
        is_run_order(plugin_keys(plugins@), r@),
{
    let ghost keys = plugin_keys(plugins@);
    let n = plugins.len();
    let mut ids: Vec<Vec<char>> = Vec::new();
    let mut k: usize = 0;
    while k < n
        invariant
            n == plugins@.len(),
            k <= n,
            ids@.len() == k,
            forall|j: int| 0 <= j < k ==> #[trigger] ids@[j]@ == plugins@[j].id@,
        decreases n - k,
    {
        ids.push(chars_of(plugins[k].id.as_str()));
        k = k + 1;
    }
    let mut order: Vec<usize> = Vec::new();
    let mut i: usize = 0;
    while i < n
        invariant
            n == plugins@.len() == keys.len(),
            keys == plugin_keys(plugins@),
            ids@.len() == n,
            forall|j: int| 0 <= j < n ==> #[trigger] ids@[j]@ == plugins@[j].id@,
            i <= n,
            order@.len() == i,
            forall|a: int| 0 <= a < order@.len() ==> #[trigger] order@[a] < i,
            forall|a: int, b: int| 0 <= a < b < order@.len() ==> #[trigger] order@[a] != #[trigger] order@[b],
            forall|a: int, b: int|
                0 <= a < b < order@.len() ==> !runs_before(keys[#[trigger] order@[b] as int], keys[#[trigger] order@[a] as int]),
            forall|a: int, b: int|
                0 <= a < b < order@.len() && keys[#[trigger] order@[a] as int] == keys[#[trigger] order@[b] as int]
                    ==> order@[a] < order@[b],
        decreases n - i,
    {
        let m = order.len();
        let mut p: usize = 0;
        while p < m && !runs_before_exec(plugins, &ids, i, order[p])
            invariant
                n == plugins@.len() == keys.len(),
                keys == plugin_keys(plugins@),
                ids@.len() == n,
                forall|j: int| 0 <= j < n ==> #[trigger] ids@[j]@ == plugins@[j].id@,
                i < n,
                m == order@.len(),
                forall|a: int| 0 <= a < order@.len() ==> #[trigger] order@[a] < i,
                p <= m,
                forall|q: int| 0 <= q < p ==> !runs_before(keys[i as int], keys[#[trigger] order@[q] as int]),
            decreases m - p,
        {
            p = p + 1;
        }
        let ghost old_order = order@;
        proof {
            if p < m {
                assert(runs_before(keys[i as int], keys[old_order[p as int] as int]));
            }
            assert forall|q: int| p <= q < m implies !runs_before(keys[#[trigger] old_order[q] as int], keys[i as int]) by {
                if runs_before(keys[old_order[q] as int], keys[i as int]) {
                    lemma_runs_before_transitive(keys[old_order[q] as int], keys[i as int], keys[old_order[p as int] as int]);
                    if q == p {
                        lemma_runs_before_irreflexive(keys[old_order[p as int] as int]);
                    }
                }
            }
            assert forall|q: int| p <= q < m implies keys[#[trigger] old_order[q] as int] != keys[i as int] by {
                if keys[old_order[q] as int] == keys[i as int] {
                    if q == p {
                        lemma_runs_before_irreflexive(keys[i as int]);
                    }
                }
            }
        }
        order.insert(p, i);
        proof {
            let o = order@;
            assert(o =~= old_order.insert(p as int, i));
            assert forall|a: int| 0 <= a < o.len() implies #[trigger] o[a] < i + 1 by {
                if a < p {
                    assert(o[a] == old_order[a]);
                } else if a > p {
                    assert(o[a] == old_order[a - 1]);
                }
            }
            assert forall|a: int, b: int| 0 <= a < b < o.len() implies #[trigger] o[a] != #[trigger] o[b] by {
                if a != p && b != p {
                    let oa = if a < p { a } else { a - 1 };
                    let ob = if b < p { b } else { b - 1 };
                    assert(o[a] == old_order[oa]);
                    assert(o[b] == old_order[ob]);
                } else if a == p {
                    assert(o[b] == old_order[b - 1]);
                } else {
                    assert(o[a] == old_order[a]);
                }
            }
            assert forall|a: int, b: int| 0 <= a < b < o.len() implies !runs_before(
                keys[#[trigger] o[b] as int],
                keys[#[trigger] o[a] as int],
            ) by {
                if a != p && b != p {
                    let oa = if a < p { a } else { a - 1 };
                    let ob = if b < p { b } else { b - 1 };
                    assert(o[a] == old_order[oa]);
                    assert(o[b] == old_order[ob]);
                } else if a == p {
                    assert(o[b] == old_order[b - 1]);
                } else {
                    assert(o[a] == old_order[a]);
                }
            }
            assert forall|a: int, b: int|
                0 <= a < b < o.len() && keys[#[trigger] o[a] as int] == keys[#[trigger] o[b] as int]
                    implies o[a] < o[b] by {
                if a != p && b != p {
                    let oa = if a < p { a } else { a - 1 };
                    let ob = if b < p { b } else { b - 1 };
                    assert(o[a] == old_order[oa]);
                    assert(o[b] == old_order[ob]);
                } else if a == p {
                    assert(o[b] == old_order[b - 1]);
                } else {
                    assert(o[a] == old_order[a]);
                }
            }
        }
        i = i + 1;
    }
    order
}

/// The plugins of a bridge, each with its descriptor, kept in run order.
pub struct PlatformPluginRegistry<P> {
    plugins: Vec<(PluginDescriptor, P)>,
}

pub open spec fn descriptors_of<P>(plugins: Seq<(PluginDescriptor, P)>) -> Seq<PluginDescriptor> {
    plugins.map_values(|e: (PluginDescriptor, P)| e.0)
}

fn copy_descriptor(d: &PluginDescriptor) -> (r: PluginDescriptor)
    ensures
        r.id@ == d.id@,
        r.priority == d.priority,
        r.default_enabled == d.default_enabled,
{
    PluginDescriptor { id: crate::text::string_of(&chars_of(d.id.as_str())), priority: d.priority, default_enabled: d.default_enabled }
}

impl<P> PlatformPluginRegistry<P> {
    /// The plugins in the order they run.
    pub closed spec fn entries(&self) -> Seq<(PluginDescriptor, P)> {
        self.plugins@
    }

    /// Keeps `plugins` in run order: priority descending, then id
    /// ascending, equal ones in the given order.
    pub fn new(plugins: Vec<(PluginDescriptor, P)>) -> (r: Self)
        ensures
            exists|order: Seq<usize>|
                is_run_order(plugin_keys(descriptors_of(plugins@)), order) && r.entries() == order.map_values(
                    |i: usize| plugins@[i as int],
                ),
    {
        let ghost given = plugins@;
        let n = plugins.len();
        let mut descs: Vec<PluginDescriptor> = Vec::new();
        let mut i: usize = 0;
        while i < n
            invariant
                n == given.len(),
                plugins@ == given,
                i <= n,
                descs@.len() == i,
                forall|j: int| 0 <= j < i ==> (#[trigger] descs@[j]).id@ == given[j].0.id@ && descs@[j].priority
                    == given[j].0.priority,
            decreases n - i,
        {
            descs.push(copy_descriptor(&plugins[i].0));
            i = i + 1;
        }
        assert(plugin_keys(descs@) =~= plugin_keys(descriptors_of(given)));
        let order = run_order(&descs);
        let ghost ord = order@;
        let mut slots: Vec<Option<(PluginDescriptor, P)>> = Vec::new();
        let mut rest = plugins;
        let mut k: usize = 0;
        while k < n
            invariant
                n == given.len(),
                k <= n,
                rest@ == given.skip(k as int),
                slots@.len() == k,
                forall|j: int| 0 <= j < k ==> #[trigger] slots@[j] == Some(given[j]),
            decreases n - k,
        {
            let e = rest.remove(0);
            assert(e == given[k as int]);
            assert(rest@ =~= given.skip(k as int + 1));
            slots.push(Some(e));
            k = k + 1;
        }
        let mut out: Vec<(PluginDescriptor, P)> = Vec::new();
        let mut m: usize = 0;
        while m < n
            invariant
                n == given.len(),
                ord == order@,
                is_run_order(plugin_keys(descriptors_of(given)), ord),
                m <= n,
                slots@.len() == n,
                out@ == ord.take(m as int).map_values(|i: usize| given[i as int]),
                forall|a: int| m <= a < n ==> #[trigger] slots@[ord[a] as int] == Some(given[ord[a] as int]),
            decreases n - m,
        {
            let idx = order[m];
            let mut taken: Option<(PluginDescriptor, P)> = None;
            let ghost before = slots@;
            std::mem::swap(&mut taken, &mut slots[idx]);
            assert(before[idx as int] == Some(given[idx as int]));
            proof {
                assert forall|a: int| m + 1 <= a < n implies #[trigger] slots@[ord[a] as int] == Some(given[ord[a] as int]) by {
                    assert(ord[a] != ord[m as int]);
                    assert(slots@[ord[a] as int] == before[ord[a] as int]);
                }
            }
            match taken {
                Some(e) => {
                    out.push(e);
                },
                None => {},
            }
            assert(ord.take(m as int + 1).map_values(|i: usize| given[i as int]) =~= ord.take(m as int).map_values(
                |i: usize| given[i as int],
            ).push(given[ord[m as int] as int]));
            m = m + 1;
        }
        assert(ord.take(n as int) =~= ord);
        PlatformPluginRegistry { plugins: out }
    }

    /// The plugins in the order they run.
    pub fn plugins(&self) -> (r: &Vec<(PluginDescriptor, P)>)
        ensures
            r@ == self.entries(),
    {
        &self.plugins
    }
}

/// A message as the plugins prepared it: what to send, what to send after
/// it succeeded, what to send if it fails, and whether it makes the turn's
/// final reply redundant.
pub struct PreparedSend<M> {
    pub primary: M,
    pub after_success: Vec<M>,
    pub fallback: Option<M>,
    pub suppress_final_reply: bool,
}

/// A message no plugin has touched.
pub fn prepared_unchanged<M>(message: M) -> (r: PreparedSend<M>)
    ensures
        r.primary == message,
        r.after_success@ == Seq::<M>::empty(),
        r.fallback is None,
        !r.suppress_final_reply,
{
    PreparedSend { primary: message, after_success: Vec::new(), fallback: None, suppress_final_reply: false }
}

/// Folds one plugin's before-send answer into the prepared message.
/// `previous` is the message the plugin was given; `outcome` is its answer
/// with whether its primary's metadata differs from `previous`, or `None`
/// when the hook failed, which leaves `previous` in place. A plugin that
/// changed the metadata without naming a fallback gets `previous` as its
/// fallback; the first fallback named is kept; follow-ups accumulate; any
/// plugin may ask to suppress the final reply.
pub fn merge_before_send<M>(prepared: PreparedSend<M>, previous: M, outcome: Option<(PreparedSend<M>, bool)>) -> (r:
    PreparedSend<M>)
    ensures
        match outcome {
            None => r.primary == previous && r.after_success@ == prepared.after_success@ && r.fallback
                == prepared.fallback && r.suppress_final_reply == prepared.suppress_final_reply,
            Some((next, metadata_changed)) => {
                let next_fallback = if next.fallback is None && metadata_changed {
                    Some(previous)
                } else {
                    next.fallback
                };
                &&& r.primary == next.primary
                &&& r.after_success@ == prepared.after_success@ + next.after_success@
                &&& r.fallback == if prepared.fallback is Some {
                    prepared.fallback
                } else {
                    next_fallback
                }
                &&& r.suppress_final_reply == (prepared.suppress_final_reply
                    || next.suppress_final_reply)
            },
        },
{
    let PreparedSend { primary: _, after_success, fallback, suppress_final_reply } = prepared;
    match outcome {
        None => PreparedSend { primary: previous, after_success, fallback, suppress_final_reply },
        Some((next, metadata_changed)) => {
            let PreparedSend {
                primary: next_primary,
                after_success: next_after,
                fallback: next_fallback0,
                suppress_final_reply: next_suppress,
            } = next;
            let next_fallback = if next_fallback0.is_none() && metadata_changed {
                Some(previous)
            } else {
                next_fallback0
            };
            let mut all = after_success;
            let mut more = next_after;
            all.append(&mut more);
            let fallback = if fallback.is_some() {
                fallback
            } else {
                next_fallback
            };
            PreparedSend {
                primary: next_primary,
                after_success: all,
                fallback,
                suppress_final_reply: suppress_final_reply || next_suppress,
            }
        },
    }
}

/// The entries of `order` whose plugin is switched on.
pub open spec fn enabled_filter(
    order: Seq<usize>,
    plugins: Seq<PluginDescriptor>,
    settings: Seq<(Seq<char>, Option<bool>)>,
) -> Seq<usize>
    decreases order.len(),
{
    if order.len() == 0 {
        order
    } else {
        let rest = enabled_filter(order.drop_last(), plugins, settings);
        let k = order.last();
        if crate::platforms::turn::plugin_enabled_spec(
            settings,
            plugins[k as int].id@,
            plugins[k as int].default_enabled,
        ) {
            rest.push(k)
        } else {
            rest
        }
    }
}

/// The plugins that run, in run order: those switched on (by setting or
/// default).
pub fn enabled_in_order(
    plugins: &Vec<PluginDescriptor>,
    order: &Vec<usize>,
    settings: &Vec<(String, Option<bool>)>,
) -> (r: Vec<usize>)
    requires
        forall|i: int| 0 <= i < order@.len() ==> #[trigger] order@[i] < plugins@.len(),
    ensures
        r@ == enabled_filter(
            order@,
            plugins@,
            Seq::new(settings@.len(), |i: int| (settings@[i].0@, settings@[i].1)),
        ),
{
    let ghost sv = Seq::new(settings@.len(), |i: int| (settings@[i].0@, settings@[i].1));
    let mut out: Vec<usize> = Vec::new();
    let n = order.len();
    let mut i: usize = 0;
    while i < n
        invariant
            n == order@.len(),
            i <= n,
            forall|j: int| 0 <= j < order@.len() ==> #[trigger] order@[j] < plugins@.len(),
            sv == Seq::new(settings@.len(), |i: int| (settings@[i].0@, settings@[i].1)),
            out@ == enabled_filter(order@.take(i as int), plugins@, sv),
        decreases n - i,
    {
        let k = order[i];
        proof {
            let t = order@.take(i as int + 1);
            assert(t.drop_last() =~= order@.take(i as int));
            assert(t.last() == k);
        }
        let d = &plugins[k];
        if crate::platforms::turn::plugin_enabled(settings, d.id.as_str(), d.default_enabled) {
            out.push(k);
        }
        i = i + 1;
    }
    assert(order@.take(n as int) =~= order@);
    out
}

} // verus!
