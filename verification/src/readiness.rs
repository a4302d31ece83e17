//! Readiness of the capabilities that the object feed relies on: whether
//! the seed offered each one, how often it was invoked, answered and
//! failed, and what happened last; kept in name order, as a sorted map
//! walks them.
use std::collections::BTreeMap;
use vstd::prelude::*;
use crate::capability::cap_get;
use crate::diagnostics::none_or_join;
use crate::numtext::{dec, push_dec};
use crate::text::{chars_of, join_chars_from, push_str, string_of};
use crate::texture_cache::{seq_lt, str_less};

verus! {

/// What is known of one capability's use.
#[derive(Debug, Clone, PartialEq, Eq)]
pub struct CapabilityReadinessEntry {
    pub available: bool,
    pub invoked: usize,
    pub ok: usize,
    pub err: usize,
    pub last: Option<String>,
}

/// An entry as the contracts see it.
pub struct ReadinessView {
    pub available: bool,
    pub invoked: usize,
    pub ok: usize,
    pub err: usize,
    pub last: Option<Seq<char>>,
}

pub open spec fn readiness_view(e: CapabilityReadinessEntry) -> ReadinessView {
    ReadinessView {
        available: e.available,
        invoked: e.invoked,
        ok: e.ok,
        err: e.err,
        last: match e.last {
            Some(s) => Some(s@),
            None => None,
        },
    }
}

/// A fresh entry.
pub open spec fn blank(available: bool) -> ReadinessView {
    ReadinessView { available, invoked: 0, ok: 0, err: 0, last: None }
}

pub open spec fn sat_inc(n: usize) -> usize {
    if n == usize::MAX {
        n
    } else {
        (n + 1) as usize
    }
}

/// An invocation started: one more invocation, last `invoked`.
pub open spec fn started(e: ReadinessView) -> ReadinessView {
    ReadinessView { invoked: sat_inc(e.invoked), last: Some("invoked"@), ..e }
}

/// An invocation answered: one more success with its status, or one more
/// failure with `err:` and its reason.
pub open spec fn answered(e: ReadinessView, result: Result<Seq<char>, Seq<char>>) -> ReadinessView {
    match result {
        Ok(status) => ReadinessView { ok: sat_inc(e.ok), last: Some(status), ..e },
        Err(reason) => ReadinessView { err: sat_inc(e.err), last: Some("err:"@ + reason), ..e },
    }
}

/// An invocation's answer as text: the status, or the failure's reason.
pub open spec fn result_text(result: Result<&str, &str>) -> Result<Seq<char>, Seq<char>> {
    match result {
        Ok(s) => Ok(s@),
        Err(s) => Err(s@),
    }
}

/// The entries with `f` applied to the one named `k`; a blank unavailable
/// entry is put in name order first when there is none.
pub open spec fn update_entry(
    es: Seq<(Seq<char>, ReadinessView)>,
    k: Seq<char>,
    f: spec_fn(ReadinessView) -> ReadinessView,
) -> Seq<(Seq<char>, ReadinessView)>
    decreases es.len(),
{
    if es.len() == 0 {
        seq![(k, f(blank(false)))]
    } else if es[0].0 == k {
        seq![(k, f(es[0].1))] + es.drop_first()
    } else if seq_lt(k, es[0].0) {
        seq![(k, f(blank(false)))] + es
    } else {
        seq![es[0]] + update_entry(es.drop_first(), k, f)
    }
}

/// The tracker: one entry per capability name, in name order.
pub struct CapabilityReadiness {
    entries: Vec<(String, CapabilityReadinessEntry)>,
}

impl View for CapabilityReadiness {
    type V = Seq<(Seq<char>, ReadinessView)>;

    closed spec fn view(&self) -> Seq<(Seq<char>, ReadinessView)> {
        self.entries@.map_values(
            |p: (String, CapabilityReadinessEntry)| (p.0@, readiness_view(p.1)),
        )
    }
}

/// The capabilities tracked from the start, in name order.
pub open spec fn tracked_names() -> Seq<Seq<char>> {
    seq!["EventQueueGet"@, "InterestList"@, "RegionObjects"@, "UntrustedSimulatorMessage"@]
}

/// `name(a=yes|no,i=…,ok=…,err=…,last=…)` for one entry.
pub open spec fn readiness_text(p: (Seq<char>, ReadinessView)) -> Seq<char> {
    p.0 + "(a="@ + (if p.1.available {
        "yes"@
    } else {
        "no"@
    }) + ",i="@ + dec(p.1.invoked as nat) + ",ok="@ + dec(p.1.ok as nat) + ",err="@ + dec(
        p.1.err as nat,
    ) + ",last="@ + match p.1.last {
        Some(l) => l,
        None => "none"@,
    } + ")"@
}

impl CapabilityReadiness {
    /// The tracked capabilities, each available when the seed map offers it.
    pub fn init_capability_readiness(capabilities: Option<&BTreeMap<String, String>>) -> (r: Self)
        ensures
            r@.len() == 4,
            forall|i: int|
                0 <= i < 4 ==> #[trigger] r@[i] == (
                    tracked_names()[i],
                    blank(
                        match capabilities {
                            Some(caps) => caps.deep_view().contains_key(tracked_names()[i]),
                            None => false,
                        },
                    ),
                ),
    {
        let names: [&str; 4] = [
            "EventQueueGet",
            "InterestList",
            "RegionObjects",
            "UntrustedSimulatorMessage",
        ];
        let mut entries: Vec<(String, CapabilityReadinessEntry)> = Vec::new();
        let mut i: usize = 0;
        assert(names@ =~= seq!["EventQueueGet", "InterestList", "RegionObjects", "UntrustedSimulatorMessage"]);
        while i < 4
            invariant
                i <= 4,
                names@.len() == 4,
                forall|j: int| 0 <= j < 4 ==> #[trigger] names@[j]@ == tracked_names()[j],
                entries@.len() == i,
                forall|j: int|
                    #![trigger entries@[j]]
                    0 <= j < i ==> entries@[j].0@ == tracked_names()[j] && readiness_view(
                        entries@[j].1,
                    ) == blank(
                        match capabilities {
                            Some(caps) => caps.deep_view().contains_key(tracked_names()[j]),
                            None => false,
                        },
                    ),
            decreases 4 - i,
        {
            let name = names[i];
            let available = match capabilities {
                Some(caps) => cap_get(caps, name).is_some(),
                None => false,
            };
            entries.push(
                (
                    name.to_owned(),
                    CapabilityReadinessEntry { available, invoked: 0, ok: 0, err: 0, last: None },
                ),
            );
            assert(entries@[i as int].0@ == tracked_names()[i as int]);
            assert(name@ == tracked_names()[i as int]);
            assert(available == match capabilities {
                Some(caps) => caps.deep_view().contains_key(tracked_names()[i as int]),
                None => false,
            });
            assert(readiness_view(entries@[i as int].1) == blank(available));
            i += 1;
        }
        CapabilityReadiness { entries }
    }

    fn update(&mut self, name: &str, ghost_f: Ghost<spec_fn(ReadinessView) -> ReadinessView>) -> (i:
        usize)
        ensures
            final(self)@.len() >= old(self)@.len(),
            i < final(self)@.len(),
            final(self)@[i as int].0 == name@,
            update_entry(old(self)@, name@, ghost_f@) == final(self)@.update(
                i as int,
                (name@, ghost_f@(final(self)@[i as int].1)),
            ),
    {
        let k = name.to_owned();
        let ghost e0 = self@;
        let ghost f = ghost_f@;
        let mut i: usize = 0;
        assert(e0.skip(0) =~= e0);
        while i < self.entries.len() && !(self.entries[i].0 == k || str_less(
            k.as_str(),
            self.entries[i].0.as_str(),
        ))
            invariant
                i <= self.entries@.len(),
                e0 == self@,
                k@ == name@,
                update_entry(e0, k@, f) == e0.take(i as int) + update_entry(e0.skip(i as int), k@, f),
            decreases self.entries@.len() - i,
        {
            assert(e0.skip(i as int)[0] == e0[i as int]);
            assert(e0.skip(i as int).drop_first() =~= e0.skip(i + 1));
            assert(e0.take(i + 1) =~= e0.take(i as int) + seq![e0[i as int]]);
            assert(e0.take(i as int) + update_entry(e0.skip(i as int), k@, f) =~= e0.take(i + 1)
                + update_entry(e0.skip(i + 1), k@, f));
            i += 1;
        }
        if i < self.entries.len() && self.entries[i].0 == k {
            assert(e0.skip(i as int)[0] == e0[i as int]);
            assert(e0.skip(i as int).drop_first() =~= e0.skip(i + 1));
            assert(self@ =~= e0);
            assert(update_entry(e0, k@, f) =~= e0.update(i as int, (k@, f(e0[i as int].1))));
        } else {
            let ghost old_es = self.entries@;
            self.entries.insert(
                i,
                (k, CapabilityReadinessEntry { available: false, invoked: 0, ok: 0, err: 0, last: None }),
            );
            proof {
                if i < old_es.len() {
                    assert(e0.skip(i as int)[0] == e0[i as int]);
                } else {
                    assert(e0.skip(i as int) =~= Seq::<(Seq<char>, ReadinessView)>::empty());
                }
                assert(self@ =~= e0.take(i as int) + seq![(name@, blank(false))] + e0.skip(i as int));
                assert(update_entry(e0, name@, f) =~= self@.update(i as int, (name@, f(blank(false)))));
            }
        }
        i
    }

    fn set_entry(&mut self, i: usize, e: CapabilityReadinessEntry)
        requires
            i < old(self)@.len(),
        ensures
            final(self)@ == old(self)@.update(i as int, (old(self)@[i as int].0, readiness_view(e))),
    {
        let (name, _) = self.entries.remove(i);
        self.entries.insert(i, (name, e));
        assert(final(self)@ =~= old(self)@.update(
            i as int,
            (old(self)@[i as int].0, readiness_view(e)),
        ));
    }

    /// Records that an invocation of `name` started (see [`started`]).
    pub fn mark_capability_invocation_started(&mut self, name: &str)
        ensures
            final(self)@ == update_entry(old(self)@, name@, |e: ReadinessView| started(e)),
    {
        let ghost f = |e: ReadinessView| started(e);
        let i = self.update(name, Ghost(f));
        assert(readiness_view(self.entries@[i as int].1) == self@[i as int].1);
        let invoked = self.entries[i].1.invoked.saturating_add(1);
        let e = CapabilityReadinessEntry {
            available: self.entries[i].1.available,
            invoked,
            ok: self.entries[i].1.ok,
            err: self.entries[i].1.err,
            last: Some("invoked".to_owned()),
        };
        self.set_entry(i, e);
        assert(final(self)@ =~= update_entry(old(self)@, name@, f));
    }

    /// Records how an invocation of `name` was answered (see [`answered`]).
    pub fn mark_capability_invocation_result(&mut self, name: &str, result: Result<&str, &str>)
        ensures
            final(self)@ == update_entry(
                old(self)@,
                name@,
                |e: ReadinessView| answered(e, result_text(result)),
            ),
    {
        let ghost f = |e: ReadinessView| answered(e, result_text(result));
        let i = self.update(name, Ghost(f));
        assert(readiness_view(self.entries@[i as int].1) == self@[i as int].1);
        let available = self.entries[i].1.available;
        let invoked = self.entries[i].1.invoked;
        let e = match result {
            Ok(status) => CapabilityReadinessEntry {
                available,
                invoked,
                ok: self.entries[i].1.ok.saturating_add(1),
                err: self.entries[i].1.err,
                last: Some(status.to_owned()),
            },
            Err(reason) => {
                let mut text = chars_of("err:");
                push_str(&mut text, reason);
                CapabilityReadinessEntry {
                    available,
                    invoked,
                    ok: self.entries[i].1.ok,
                    err: self.entries[i].1.err.saturating_add(1),
                    last: Some(string_of(text.as_slice())),
                }
            },
        };
        self.set_entry(i, e);
        assert(final(self)@ =~= update_entry(old(self)@, name@, f));
    }

    /// Every entry as text, in order, separated by `;`, or `none`.
    pub fn summarize_capability_readiness(&self) -> (r: String)
        ensures
            r@ == none_or_join(self@.map_values(|p: (Seq<char>, ReadinessView)| readiness_text(p)), ";"@),
    {
        let mut pieces: Vec<Vec<char>> = Vec::new();
        let mut i: usize = 0;
        while i < self.entries.len()
            invariant
                i <= self.entries@.len(),
                self@.len() == self.entries@.len(),
                pieces@.len() == i,
                forall|j: int| 0 <= j < i ==> #[trigger] pieces@[j]@ == readiness_text(self@[j]),
            decreases self.entries@.len() - i,
        {
            let (name, e) = (&self.entries[i].0, &self.entries[i].1);
            assert(self@[i as int] == (name@, readiness_view(*e)));
            let mut t = chars_of(name.as_str());
            push_str(&mut t, "(a=");
            push_str(&mut t, if e.available { "yes" } else { "no" });
            push_str(&mut t, ",i=");
            push_dec(&mut t, e.invoked as u64);
            push_str(&mut t, ",ok=");
            push_dec(&mut t, e.ok as u64);
            push_str(&mut t, ",err=");
            push_dec(&mut t, e.err as u64);
            push_str(&mut t, ",last=");
            match &e.last {
                Some(l) => push_str(&mut t, l.as_str()),
                None => push_str(&mut t, "none"),
            }
            push_str(&mut t, ")");
            assert(t@ =~= readiness_text(self@[i as int]));
            pieces.push(t);
            i += 1;
        }
        assert(pieces@.map_values(|w: Vec<char>| w@) =~= self@.map_values(
            |p: (Seq<char>, ReadinessView)| readiness_text(p),
        ));
        if pieces.len() == 0 {
            return "none".to_owned();
        }
        let sep = chars_of(";");
        let joined = join_chars_from(pieces.as_slice(), 0, sep.as_slice());
        assert(pieces@.map_values(|w: Vec<char>| w@).skip(0) =~= pieces@.map_values(
            |w: Vec<char>| w@,
        ));
        string_of(joined.as_slice())
    }
}

} // verus!
