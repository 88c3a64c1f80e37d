use vstd::prelude::*;
use crate::descriptor::PluginMeta;
use crate::pattern::{pattern_matches, regex_compiles};
use crate::registry::{command_owner, first_fired, has_command_key, selected, trigger_fires};

verus! {

/// `command_owner` is the first descriptor that has the key.
pub proof fn lemma_command_owner_spec(ds: Seq<PluginMeta>, key: Seq<char>)
    ensures
        match command_owner(ds, key) {
            Some(i) => 0 <= i < ds.len() && has_command_key(ds[i], key) && forall|j: int|
                0 <= j < i ==> !has_command_key(#[trigger] ds[j], key),
            None => forall|j: int| 0 <= j < ds.len() ==> !has_command_key(#[trigger] ds[j], key),
        },
    decreases ds.len(),
{
    if ds.len() > 0 {
        let p = ds.drop_last();
        lemma_command_owner_spec(p, key);
        assert forall|j: int| 0 <= j < p.len() implies p[j] == ds[j] by {}
    }
}

/// `first_fired` is the first descriptor whose trigger fires.
pub proof fn lemma_first_fired_spec(
    ds: Seq<PluginMeta>,
    text: Option<Seq<char>>,
    callback: Option<Seq<char>>,
)
    ensures
        match first_fired(ds, text, callback) {
            Some(i) => 0 <= i < ds.len() && trigger_fires(ds[i], text, callback) && forall|j: int|
                0 <= j < i ==> !trigger_fires(#[trigger] ds[j], text, callback),
            None => forall|j: int|
                0 <= j < ds.len() ==> !trigger_fires(#[trigger] ds[j], text, callback),
        },
    decreases ds.len(),
{
    if ds.len() > 0 {
        let p = ds.drop_last();
        lemma_first_fired_spec(p, text, callback);
        assert forall|j: int| 0 <= j < p.len() implies p[j] == ds[j] by {}
    }
}

/// A text that is exactly `prefix + command` of a registered descriptor goes to
/// the first descriptor registered under that key, and to no other, whatever
/// regex or callback triggers would also fire.
pub proof fn exact_command_takes_priority(
    ds: Seq<PluginMeta>,
    text: Seq<char>,
    callback: Option<Seq<char>>,
    i: int,
)
    requires
        0 <= i < ds.len(),
        has_command_key(ds[i], text),
        forall|j: int| 0 <= j < i ==> !has_command_key(#[trigger] ds[j], text),
    ensures
        selected(ds, Some(text), callback) == Some(i),
{
    lemma_command_owner_spec(ds, text);
    match command_owner(ds, text) {
        Some(k) => {
            if k < i {
                assert(!has_command_key(ds[k], text));
            }
            if k > i {
                assert(!has_command_key(ds[i], text));
            }
        },
        None => {
            assert(!has_command_key(ds[i], text));
        },
    }
}

/// When no descriptor has the text as an exact command, the first descriptor in
/// registration order whose regex matches the text is chosen, and the scan
/// stops there.
pub proof fn regex_fallback_picks_first_match(ds: Seq<PluginMeta>, text: Seq<char>, i: int)
    requires
        forall|j: int| 0 <= j < ds.len() ==> !has_command_key(#[trigger] ds[j], text),
        0 <= i < ds.len(),
        ds[i].regex matches Some(p) && pattern_matches(p@, text),
        forall|j: int| 0 <= j < i ==> !trigger_fires(#[trigger] ds[j], Some(text), None),
    ensures
        selected(ds, Some(text), None) == Some(i),
{
    lemma_command_owner_spec(ds, text);
    if let Some(k) = command_owner(ds, text) {
        assert(!has_command_key(ds[k], text));
    }
    lemma_first_fired_is(ds, Some(text), None, i);
}

proof fn lemma_first_fired_is(
    ds: Seq<PluginMeta>,
    text: Option<Seq<char>>,
    callback: Option<Seq<char>>,
    i: int,
)
    requires
        0 <= i < ds.len(),
        trigger_fires(ds[i], text, callback),
        forall|j: int| 0 <= j < i ==> !trigger_fires(#[trigger] ds[j], text, callback),
    ensures
        first_fired(ds, text, callback) == Some(i),
{
    lemma_first_fired_spec(ds, text, callback);
    match first_fired(ds, text, callback) {
        Some(k) => {
            if k < i {
                assert(!trigger_fires(ds[k], text, callback));
            }
            if k > i {
                assert(!trigger_fires(ds[i], text, callback));
            }
        },
        None => {
            assert(!trigger_fires(ds[i], text, callback));
        },
    }
}

/// Of two descriptors with a colliding `prefix + command` key, the key goes to
/// the one registered first; the later one's command trigger is inert, while its
/// regex trigger still takes part in the fallback scan.
pub proof fn colliding_key_stays_with_first(
    ds: Seq<PluginMeta>,
    key: Seq<char>,
    first: int,
    second: int,
    text: Seq<char>,
)
    requires
        0 <= first < second < ds.len(),
        has_command_key(ds[first], key),
        has_command_key(ds[second], key),
        forall|j: int| 0 <= j < first ==> !has_command_key(#[trigger] ds[j], key),
    ensures
        selected(ds, Some(key), None) == Some(first),
        ({
            &&& forall|j: int| 0 <= j < ds.len() ==> !has_command_key(#[trigger] ds[j], text)
            &&& ds[second].regex matches Some(p) && pattern_matches(p@, text)
            &&& forall|j: int| 0 <= j < second ==> !trigger_fires(#[trigger] ds[j], Some(text), None)
        }) ==> selected(ds, Some(text), None) == Some(second),
{
    exact_command_takes_priority(ds, key, None, first);
    if {
        &&& forall|j: int| 0 <= j < ds.len() ==> !has_command_key(#[trigger] ds[j], text)
        &&& ds[second].regex matches Some(p) && pattern_matches(p@, text)
        &&& forall|j: int| 0 <= j < second ==> !trigger_fires(#[trigger] ds[j], Some(text), None)
    } {
        regex_fallback_picks_first_match(ds, text, second);
    }
}

/// The position in `ds` of position `j` in `ds.remove(m)`.
pub open spec fn restore(o: Option<int>, m: int) -> Option<int> {
    match o {
        Some(j) => Some(if j < m { j } else { j + 1 }),
        None => None,
    }
}

/// A descriptor whose regex is malformed never fires for any text, and the
/// fallback scan picks the same descriptor as if it were not registered at all.
pub proof fn malformed_regex_is_inert(ds: Seq<PluginMeta>, m: int, text: Seq<char>)
    requires
        0 <= m < ds.len(),
        ds[m].regex matches Some(p) && !regex_compiles(p@),
    ensures
        !trigger_fires(ds[m], Some(text), None),
        first_fired(ds, Some(text), None) == restore(
            first_fired(ds.remove(m), Some(text), None),
            m,
        ),
{
    let t = Some(text);
    let rest = ds.remove(m);
    lemma_first_fired_spec(rest, t, None);
    lemma_first_fired_spec(ds, t, None);
    assert forall|j: int| 0 <= j < rest.len() implies rest[j] == if j < m {
        ds[j]
    } else {
        ds[j + 1]
    } by {}
    match first_fired(rest, t, None) {
        Some(j) => {
            let k = if j < m { j } else { j + 1 };
            assert forall|x: int| 0 <= x < k implies !trigger_fires(#[trigger] ds[x], t, None) by {
                if x < m {
                    assert(ds[x] == rest[x]);
                } else if x > m {
                    assert(ds[x] == rest[x - 1]);
                }
            }
            lemma_first_fired_is(ds, t, None, k);
        },
        None => {
            assert forall|x: int| 0 <= x < ds.len() implies !trigger_fires(
                #[trigger] ds[x],
                t,
                None,
            ) by {
                if x < m {
                    assert(ds[x] == rest[x]);
                } else if x > m {
                    assert(ds[x] == rest[x - 1]);
                }
            }
            if let Some(k) = first_fired(ds, t, None) {
                assert(!trigger_fires(ds[k], t, None));
            }
        },
    }
}

/// The choice depends on the registered descriptors and the event alone: two
/// dispatches of the same event against the same descriptors (as `dispatch`
/// leaves them) choose the same handler.
pub proof fn dispatch_choice_is_stable(
    before: Seq<PluginMeta>,
    after: Seq<PluginMeta>,
    text: Option<Seq<char>>,
    callback: Option<Seq<char>>,
)
    requires
        after == before,
    ensures
        selected(after, text, callback) == selected(before, text, callback),
{
}

} // verus!
