use vstd::prelude::*;
use vstd::string::*;
use crate::context::PluginContext;
use crate::descriptor::{determine_handler_type, DeclarationError, PluginMeta};
use crate::pattern::{pattern_matches, RegexCache};

verus! {

/// Whether `key` is `p + c` for a prefix `p` and a command `c` of `d`, among
/// the pairs that come before `(i, j)`: all commands of the first `i`
/// prefixes, then the first `j` commands of prefix `i`.
pub open spec fn key_before(d: PluginMeta, key: Seq<char>, i: int, j: int) -> bool {
    exists|a: int, b: int|
        0 <= a < d.prefixes@.len() && 0 <= b < d.commands@.len() && (a < i || (a == i && b < j))
            && #[trigger] d.prefixes@[a]@ + #[trigger] d.commands@[b]@ == key
}

/// Whether `key` is `p + c` for some prefix `p` and command `c` of `d`.
pub open spec fn has_command_key(d: PluginMeta, key: Seq<char>) -> bool {
    key_before(d, key, d.prefixes@.len() as int, 0)
}

/// The first registered descriptor that declares `key` as `prefix + command`.
pub open spec fn command_owner(ds: Seq<PluginMeta>, key: Seq<char>) -> Option<int>
    decreases ds.len(),
{
    if ds.len() == 0 {
        None
    } else {
        match command_owner(ds.drop_last(), key) {
            Some(i) => Some(i),
            None => if has_command_key(ds.last(), key) {
                Some(ds.len() - 1)
            } else {
                None
            },
        }
    }
}

/// Whether `d`'s regex or callback trigger fires for an event.
pub open spec fn trigger_fires(
    d: PluginMeta,
    text: Option<Seq<char>>,
    callback: Option<Seq<char>>,
) -> bool {
    ||| (text matches Some(t) && d.regex matches Some(p) && pattern_matches(p@, t))
    ||| (callback matches Some(c) && d.callback_filter matches Some(f) && f@ == c)
}

/// The first descriptor, in registration order, whose regex or callback
/// trigger fires for an event.
pub open spec fn first_fired(
    ds: Seq<PluginMeta>,
    text: Option<Seq<char>>,
    callback: Option<Seq<char>>,
) -> Option<int>
    decreases ds.len(),
{
    if ds.len() == 0 {
        None
    } else {
        match first_fired(ds.drop_last(), text, callback) {
            Some(i) => Some(i),
            None => if trigger_fires(ds.last(), text, callback) {
                Some(ds.len() - 1)
            } else {
                None
            },
        }
    }
}

/// The descriptor that an event is routed to: the owner of the text as an
/// exact command if there is one, else the first whose trigger fires.
pub open spec fn selected(
    ds: Seq<PluginMeta>,
    text: Option<Seq<char>>,
    callback: Option<Seq<char>>,
) -> Option<int> {
    match text {
        Some(t) => match command_owner(ds, t) {
            Some(i) => Some(i),
            None => first_fired(ds, text, callback),
        },
        None => first_fired(ds, text, callback),
    }
}

/// One entry of the command index: a `prefix + command` key and the position
/// of the descriptor it resolves to.
pub struct CommandEntry {
    key: String,
    plugin: usize,
}

/// The value of the first entry of `es` with key `key`.
pub open spec fn index_lookup(es: Seq<(Seq<char>, int)>, key: Seq<char>) -> Option<int>
    decreases es.len(),
{
    if es.len() == 0 {
        None
    } else {
        match index_lookup(es.drop_last(), key) {
            Some(v) => Some(v),
            None => if es.last().0 == key {
                Some(es.last().1)
            } else {
                None
            },
        }
    }
}

/// The registered descriptors in registration order, the exact-match command
/// index, and the regex cache.
pub struct Registry {
    plugins: Vec<PluginMeta>,
    commands: Vec<CommandEntry>,
    regexes: RegexCache,
}

impl Registry {
    /// The registered descriptors, in registration order.
    pub closed spec fn plugins(&self) -> Seq<PluginMeta> {
        self.plugins@
    }

    pub closed spec fn index_view(&self) -> Seq<(Seq<char>, int)> {
        Seq::new(
            self.commands@.len(),
            |i: int| (self.commands@[i].key@, self.commands@[i].plugin as int),
        )
    }

    pub closed spec fn wf(&self) -> bool {
        &&& self.regexes.wf()
        &&& forall|key: Seq<char>|
            #[trigger] index_lookup(self.index_view(), key) == command_owner(self.plugins@, key)
        &&& forall|i: int|
            0 <= i < self.commands@.len() ==> (#[trigger] self.commands@[i]).plugin
                < self.plugins@.len()
        &&& forall|i: int| 0 <= i < self.plugins@.len() ==> (#[trigger] self.plugins@[i]).well_formed()
    }

    pub fn new() -> (r: Registry)
        ensures
            r.wf(),
            r.plugins() == Seq::<PluginMeta>::empty(),
    {
        let r = Registry { plugins: Vec::new(), commands: Vec::new(), regexes: RegexCache::new() };
        assert(r.index_view() =~= Seq::<(Seq<char>, int)>::empty());
        r
    }

    /// The number of registered descriptors.
    pub fn len(&self) -> (r: usize)
        ensures
            r == self.plugins().len(),
    {
        self.plugins.len()
    }

    /// The descriptor registered at position `i`.
    pub fn get(&self, i: usize) -> (r: &PluginMeta)
        requires
            i < self.plugins().len(),
        ensures
            *r == self.plugins()[i as int],
    {
        &self.plugins[i]
    }
}


/// An optional position as a mathematical integer.
pub open spec fn as_int(o: Option<usize>) -> Option<int> {
    match o {
        Some(i) => Some(i as int),
        None => None,
    }
}

proof fn lemma_lookup_push(es: Seq<(Seq<char>, int)>, x: (Seq<char>, int), key: Seq<char>)
    ensures
        index_lookup(es.push(x), key) == match index_lookup(es, key) {
            Some(v) => Some(v),
            None => if x.0 == key {
                Some(x.1)
            } else {
                None
            },
        },
{
    assert(es.push(x).drop_last() =~= es);
}

proof fn lemma_key_step(d: PluginMeta, key: Seq<char>, i: int, j: int)
    requires
        0 <= i < d.prefixes@.len(),
        0 <= j < d.commands@.len(),
    ensures
        key_before(d, key, i, j + 1) == (key_before(d, key, i, j) || key == d.prefixes@[i]@
            + d.commands@[j]@),
{
    if key_before(d, key, i, j + 1) {
        let (a, b) = choose|a: int, b: int|
            0 <= a < d.prefixes@.len() && 0 <= b < d.commands@.len() && (a < i || (a == i && b
                < j + 1)) && #[trigger] d.prefixes@[a]@ + #[trigger] d.commands@[b]@ == key;
        if !(a < i || (a == i && b < j)) {
            assert(a == i && b == j);
        }
    }
    if key == d.prefixes@[i]@ + d.commands@[j]@ {
        assert(d.prefixes@[i]@ + d.commands@[j]@ == key);
    }
}

proof fn lemma_row_step(d: PluginMeta, key: Seq<char>, i: int)
    requires
        0 <= i < d.prefixes@.len(),
    ensures
        key_before(d, key, i, d.commands@.len() as int) == key_before(d, key, i + 1, 0),
{
    if key_before(d, key, i + 1, 0) {
        let (a, b) = choose|a: int, b: int|
            0 <= a < d.prefixes@.len() && 0 <= b < d.commands@.len() && (a < i + 1 || (a == i
                + 1 && b < 0)) && #[trigger] d.prefixes@[a]@ + #[trigger] d.commands@[b]@ == key;
        assert(a < i || (a == i && b < d.commands@.len()));
    }
}

/// The first entry of the command index with key `key`.
fn index_find(commands: &Vec<CommandEntry>, key: &String) -> (r: Option<usize>)
    ensures
        as_int(r) == index_lookup(
            Seq::new(commands@.len(), |i: int| (commands@[i].key@, commands@[i].plugin as int)),
            key@,
        ),
{
    let ghost es = Seq::new(
        commands@.len(),
        |i: int| (commands@[i].key@, commands@[i].plugin as int),
    );
    let mut i: usize = 0;
    assert(es.take(0) =~= Seq::<(Seq<char>, int)>::empty());
    while i < commands.len()
        invariant
            i <= commands@.len(),
            es == Seq::new(
                commands@.len(),
                |i: int| (commands@[i].key@, commands@[i].plugin as int),
            ),
            index_lookup(es.take(i as int), key@) is None,
        decreases commands@.len() - i,
    {
        assert(es.take(i + 1).drop_last() =~= es.take(i as int));
        if commands[i].key == *key {
            proof {
                lemma_lookup_prefix(es, i as int + 1, key@);
            }
            return Some(commands[i].plugin);
        }
        i = i + 1;
    }
    assert(es.take(i as int) =~= es);
    None
}

/// A hit in the first `n` entries is the hit in all of them.
proof fn lemma_lookup_prefix(es: Seq<(Seq<char>, int)>, n: int, key: Seq<char>)
    requires
        0 <= n <= es.len(),
        index_lookup(es.take(n), key) is Some,
    ensures
        index_lookup(es, key) == index_lookup(es.take(n), key),
    decreases es.len() - n,
{
    if n < es.len() {
        assert(es.take(n + 1).drop_last() =~= es.take(n));
        lemma_lookup_prefix(es, n + 1, key);
    } else {
        assert(es.take(n) =~= es);
    }
}

impl Registry {
    /// The descriptor whose `prefix + command` is exactly `text`: the first
    /// one registered under that key.
    pub fn find_command_plugin(&self, text: &String) -> (r: Option<usize>)
        requires
            self.wf(),
        ensures
            as_int(r) == command_owner(self.plugins(), text@),
            r matches Some(i) ==> i < self.plugins().len(),
    {
        let r = index_find(&self.commands, text);
        assert(index_lookup(self.index_view(), text@) == command_owner(self.plugins@, text@));
        proof {
            if let Some(i) = r {
                lemma_owner_bound(self.plugins@, text@);
            }
        }
        r
    }
}

proof fn lemma_owner_bound(ds: Seq<PluginMeta>, key: Seq<char>)
    ensures
        command_owner(ds, key) matches Some(i) ==> 0 <= i < ds.len() && has_command_key(
            ds[i],
            key,
        ),
    decreases ds.len(),
{
    if ds.len() > 0 {
        lemma_owner_bound(ds.drop_last(), key);
    }
}

/// Registers a descriptor after the ones already there and hands back its
/// position. Each of its `prefix + command` keys that no earlier descriptor
/// holds is added to the command index. A descriptor with both kinds of trigger,
/// or none, is rejected and the registry is left as it was.
pub fn register_plugin(registry: &mut Registry, plugin: PluginMeta) -> (r: Result<
    usize,
    DeclarationError,
>)
    requires
        old(registry).wf(),
    ensures
        final(registry).wf(),
        r is Ok <==> plugin.well_formed(),
        match r {
            Ok(i) => i == old(registry).plugins().len() && final(registry).plugins() == old(
                registry,
            ).plugins().push(plugin),
            Err(e) => final(registry).plugins() == old(registry).plugins()
                && crate::descriptor::handler_kind(
                plugin.commands@,
                plugin.prefixes@,
                plugin.regex.is_some(),
                plugin.callback_filter.is_some(),
            ) == Err::<bool, DeclarationError>(e),
        },
{
    match determine_handler_type(
        &plugin.commands,
        &plugin.prefixes,
        &plugin.regex,
        &plugin.callback_filter,
    ) {
        Err(e) => {
            return Err(e);
        },
        Ok(_) => {},
    }
    let n = registry.plugins.len();
    let ghost ds = registry.plugins@;
    let ghost d = plugin;
    let np = plugin.prefixes.len();
    let nc = plugin.commands.len();
    let mut i: usize = 0;
    while i < np
        invariant
            i <= np,
            np == d.prefixes@.len(),
            nc == d.commands@.len(),
            d == plugin,
            n == ds.len(),
            registry.plugins@ == ds,
            registry.regexes == old(registry).regexes,
            forall|k: int|
                0 <= k < registry.commands@.len() ==> (#[trigger] registry.commands@[k]).plugin
                    <= n,
            forall|key: Seq<char>|
                #[trigger] index_lookup(registry.index_view(), key) == match command_owner(
                    ds,
                    key,
                ) {
                    Some(x) => Some(x),
                    None => if key_before(d, key, i as int, 0) {
                        Some(n as int)
                    } else {
                        None
                    },
                },
        decreases np - i,
    {
        let mut j: usize = 0;
        while j < nc
            invariant
                i < np,
                j <= nc,
                np == d.prefixes@.len(),
                nc == d.commands@.len(),
                d == plugin,
                n == ds.len(),
                registry.plugins@ == ds,
                registry.regexes == old(registry).regexes,
                forall|k: int|
                    0 <= k < registry.commands@.len() ==> (#[trigger] registry.commands@[k]).plugin
                        <= n,
                forall|key: Seq<char>|
                    #[trigger] index_lookup(registry.index_view(), key) == match command_owner(
                        ds,
                        key,
                    ) {
                        Some(x) => Some(x),
                        None => if key_before(d, key, i as int, j as int) {
                            Some(n as int)
                        } else {
                            None
                        },
                    },
            decreases nc - j,
        {
            let mut key = plugin.prefixes[i].clone();
            key.append(plugin.commands[j].as_str());
            let ghost before = registry.index_view();
            let found = index_find(&registry.commands, &key);
            if found.is_none() {
                registry.commands.push(CommandEntry { key, plugin: n });
                proof {
                    assert(registry.index_view() =~= before.push((key@, n as int)));
                }
            }
            proof {
                assert forall|k: Seq<char>|
                    #[trigger] index_lookup(registry.index_view(), k) == match command_owner(
                        ds,
                        k,
                    ) {
                        Some(x) => Some(x),
                        None => if key_before(d, k, i as int, j + 1) {
                            Some(n as int)
                        } else {
                            None
                        },
                    } by {
                    lemma_key_step(d, k, i as int, j as int);
                    if found.is_none() {
                        lemma_lookup_push(before, (key@, n as int), k);
                    }
                }
            }
            j = j + 1;
        }
        proof {
            assert forall|k: Seq<char>|
                key_before(d, k, i as int, nc as int) == key_before(d, k, i + 1, 0) by {
                lemma_row_step(d, k, i as int);
            }
        }
        i = i + 1;
    }
    let ghost iv = registry.index_view();
    assert(forall|key: Seq<char>|
        #[trigger] index_lookup(iv, key) == match command_owner(ds, key) {
            Some(x) => Some(x),
            None => if key_before(d, key, np as int, 0) {
                Some(n as int)
            } else {
                None
            },
        });
    registry.plugins.push(plugin);
    proof {
        assert(registry.index_view() =~= iv);
        assert(registry.plugins@.drop_last() =~= ds);
        assert(registry.plugins@.last() == d);
        assert forall|key: Seq<char>|
            #[trigger] index_lookup(registry.index_view(), key) == command_owner(
                registry.plugins@,
                key,
            ) by {
            assert(index_lookup(iv, key) == match command_owner(ds, key) {
                Some(x) => Some(x),
                None => if key_before(d, key, np as int, 0) {
                    Some(n as int)
                } else {
                    None
                },
            });
        }
        assert forall|i: int|
            0 <= i < registry.plugins@.len() implies (#[trigger] registry.plugins@[i]).well_formed() by {
            if i < n {
                assert(registry.plugins@[i] == ds[i]);
            }
        }
    }
    Ok(n)
}

/// A hit among the first `n` descriptors is the hit among all of them.
proof fn lemma_fired_prefix(
    ds: Seq<PluginMeta>,
    n: int,
    text: Option<Seq<char>>,
    callback: Option<Seq<char>>,
)
    requires
        0 <= n <= ds.len(),
        first_fired(ds.take(n), text, callback) is Some,
    ensures
        first_fired(ds, text, callback) == first_fired(ds.take(n), text, callback),
    decreases ds.len() - n,
{
    if n < ds.len() {
        assert(ds.take(n + 1).drop_last() =~= ds.take(n));
        lemma_fired_prefix(ds, n + 1, text, callback);
    } else {
        assert(ds.take(n) =~= ds);
    }
}

/// Whether the regex or callback trigger of the descriptor at `i` fires for
/// the event.
fn fires(registry: &mut Registry, i: usize, ctx: &PluginContext) -> (r: bool)
    requires
        old(registry).wf(),
        i < old(registry).plugins().len(),
    ensures
        final(registry).wf(),
        final(registry).plugins() == old(registry).plugins(),
        r == trigger_fires(old(registry).plugins()[i as int], ctx.text_view(), ctx.callback_view()),
{
    if let Some(text) = &ctx.message_text {
        if let Some(pattern) = &registry.plugins[i].regex {
            let pattern = pattern.clone();
            if registry.regexes.is_match(&pattern, text) {
                return true;
            }
        }
    }
    if let Some(data) = &ctx.callback_data {
        if let Some(filter) = &registry.plugins[i].callback_filter {
            if *filter == *data {
                return true;
            }
        }
    }
    false
}

/// Routes an event to one registered descriptor and hands back its position:
/// the owner of the message text as an exact `prefix + command` key if there is
/// one, else the first descriptor, in registration order, whose regex matches
/// the text or whose callback filter equals the callback data. `None` when
/// nothing matches. The descriptors are left as they were; only the regex
/// cache may grow.
pub fn dispatch(registry: &mut Registry, ctx: &PluginContext) -> (r: Option<usize>)
    requires
        old(registry).wf(),
    ensures
        final(registry).wf(),
        final(registry).plugins() == old(registry).plugins(),
        as_int(r) == selected(old(registry).plugins(), ctx.text_view(), ctx.callback_view()),
        r matches Some(i) ==> i < old(registry).plugins().len(),
{
    if let Some(text) = &ctx.message_text {
        if let Some(i) = registry.find_command_plugin(text) {
            return Some(i);
        }
    }
    let ghost ds = registry.plugins@;
    let n = registry.plugins.len();
    let mut i: usize = 0;
    assert(ds.take(0) =~= Seq::<PluginMeta>::empty());
    while i < n
        invariant
            i <= n,
            n == ds.len(),
            registry.wf(),
            registry.plugins@ == ds,
            ds == old(registry).plugins(),
            first_fired(ds.take(i as int), ctx.text_view(), ctx.callback_view()) is None,
            ctx.text_view() matches Some(t) ==> command_owner(ds, t) is None,
        decreases n - i,
    {
        assert(ds.take(i + 1).drop_last() =~= ds.take(i as int));
        assert(ds.take(i + 1).last() == ds[i as int]);
        if fires(registry, i, ctx) {
            proof {
                lemma_fired_prefix(ds, i + 1, ctx.text_view(), ctx.callback_view());
            }
            return Some(i);
        }
        i = i + 1;
    }
    assert(ds.take(n as int) =~= ds);
    None
}

} // verus!
