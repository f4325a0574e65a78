//! The firmware's boot configuration, as far as it could be read, and what
//! may be written back.
//!
//! **Entries are found by enumerating the variable store, not by walking
//! `BootOrder`.** A `Boot####` that exists but has fallen out of `BootOrder`
//! is invisible to the firmware's own boot menu, and is one of the two ways
//! a machine that was working yesterday stops offering the OS today. Reading
//! the order and following it would reproduce exactly the blindness the
//! operator came here to escape.
//!
//! The application talks to the runtime services and hands over what came
//! back; nothing here does.

use crate::bootcfg::vars_of;
use crate::bootopt::{
    decode, decode_order, may_write, option_says, order_says, parse_slot, setting_names, settings,
    slot_name, slot_of_text, slot_text, writable, LoadOption, LoadOptionView, VarWrite,
};
use crate::bytes::{copied, le16, rd_u16};
use crate::text::{content_of, dec, dec_text, strings_of, texts_of};
use vstd::prelude::*;

verus! {

/// What asking for a variable came back with: its bytes, `None` if it is
/// not there, which for most of these is a normal state, or why it could
/// not be read.
pub type Reply = Result<Option<Vec<u8>>, String>;

/// What the firmware answered to being asked for a variable.
pub enum Answer {
    Found(Vec<u8>),
    NotFound,
    /// Any other status, by its name.
    Failed(String),
}

/// What the firmware answered to being asked for the size of a variable, by
/// handing it a buffer with no room at all.
#[derive(Debug)]
pub enum SizeAnswer {
    /// It fitted. An empty variable does not exist, so this should not
    /// happen; it is answered honestly rather than treated as an error.
    Fitted(usize),
    /// The size it wanted, where it said.
    TooSmall(Option<usize>),
    NotFound,
    /// Any other status, by its name.
    Failed(String),
}

/// A failed request and the status it failed with.
pub open spec fn status_text(what: Seq<char>, status: Seq<char>) -> Seq<char> {
    what + " ("@ + status + ")"@
}

/// A failed request and the status it failed with.
pub fn err(what: &str, status: &str) -> (r: String)
    ensures
        r@ == status_text(what@, status@),
{
    let mut s = what.to_owned();
    s.push_str(" (");
    s.push_str(status);
    s.push_str(")");
    s
}

/// What a variable reads as: that it is not there is a normal state for most
/// of these, and every other failure is reported as one.
pub fn get(answer: Answer) -> (r: Reply)
    ensures
        match answer {
            Answer::Found(data) => r == Ok::<Option<Vec<u8>>, String>(Some(data)),
            Answer::NotFound => r == Ok::<Option<Vec<u8>>, String>(None),
            Answer::Failed(status) => r matches Err(e) && e@ == status_text(
                "cannot read"@,
                status@,
            ),
        },
{
    match answer {
        Answer::Found(data) => Ok(Some(data)),
        Answer::NotFound => Ok(None),
        Answer::Failed(status) => Err(err("cannot read", status.as_str())),
    }
}

/// The size of a variable, without reading it.
pub fn size_of(answer: &SizeAnswer) -> (r: Result<Option<usize>, String>)
    ensures
        match answer {
            SizeAnswer::Fitted(n) => r == Ok::<Option<usize>, String>(Some(*n)),
            SizeAnswer::TooSmall(Some(n)) => r == Ok::<Option<usize>, String>(Some(*n)),
            SizeAnswer::TooSmall(None) => r == Ok::<Option<usize>, String>(Some(0)),
            SizeAnswer::NotFound => r == Ok::<Option<usize>, String>(None),
            SizeAnswer::Failed(status) => r matches Err(e) && e@ == status_text(
                "cannot read"@,
                status@,
            ),
        },
{
    match answer {
        SizeAnswer::Fitted(n) => Ok(Some(*n)),
        SizeAnswer::TooSmall(Some(n)) => Ok(Some(*n)),
        SizeAnswer::TooSmall(None) => Ok(Some(0)),
        SizeAnswer::NotFound => Ok(None),
        SizeAnswer::Failed(status) => Err(err("cannot read", status.as_str())),
    }
}

/// What NVRAM says about booting, as far as it could be read.
pub struct BootState {
    /// The entry the firmware used for this boot.
    pub current: Option<u16>,
    /// A one-shot override for the next boot, if one is pending.
    pub next: Option<u16>,
    /// The boot menu timeout, in seconds.
    pub timeout: Option<u16>,
    /// The order the firmware tries entries in.
    pub order: Result<Vec<u16>, String>,
    /// Every `Boot####` in the store, by slot, lowest first.
    ///
    /// An entry that will not decode is carried as an `Err` rather than
    /// dropped. A corrupt boot entry is a finding, not a non-event.
    pub entries: Vec<(u16, Result<LoadOption, String>)>,
    /// Why the enumeration stopped early, if it did.
    pub truncated: Option<String>,
}

/// The entry of this slot among those from `i` on.
pub open spec fn entry_from(
    entries: Seq<(u16, Result<LoadOption, String>)>,
    slot: u16,
    i: int,
) -> Option<Result<LoadOption, String>>
    decreases entries.len() - i,
{
    if i < 0 || i >= entries.len() {
        None
    } else if entries[i].0 == slot {
        Some(entries[i].1)
    } else {
        entry_from(entries, slot, i + 1)
    }
}

/// The slots among the first `n` entries that the order does not name.
pub open spec fn outside(
    entries: Seq<(u16, Result<LoadOption, String>)>,
    order: Seq<u16>,
    n: nat,
) -> Seq<u16>
    decreases n,
{
    if n == 0 {
        Seq::empty()
    } else {
        let before = outside(entries, order, (n - 1) as nat);
        if order.contains(entries[n - 1].0) {
            before
        } else {
            before.push(entries[n - 1].0)
        }
    }
}

pub(crate) fn holds_slot(order: &[u16], slot: u16) -> (r: bool)
    ensures
        r == order@.contains(slot),
{
    let mut i: usize = 0;
    while i < order.len()
        invariant
            i <= order@.len(),
            forall|j: int| 0 <= j < i ==> order@[j] != slot,
        decreases order@.len() - i,
    {
        if order[i] == slot {
            assert(order@[i as int] == slot);
            return true;
        }
        i += 1;
    }
    false
}

impl BootState {
    /// The order, empty where it could not be read.
    pub open spec fn ordered(self) -> Seq<u16> {
        match self.order {
            Ok(order) => order@,
            Err(_) => Seq::empty(),
        }
    }

    /// The order, empty where it could not be read.
    pub fn order_or_none(&self) -> (r: &[u16])
        ensures
            r@ == self.ordered(),
    {
        match &self.order {
            Ok(order) => order.as_slice(),
            Err(_) => {
                let none: &[u16] = &[];
                assert(none@ =~= Seq::<u16>::empty());
                none
            },
        }
    }

    /// Entries that exist but are not in `BootOrder`, lowest slot first.
    pub fn orphans(&self) -> (r: Vec<u16>)
        ensures
            r@ == outside(self.entries@, self.ordered(), self.entries@.len()),
    {
        let order = self.order_or_none();
        let mut out: Vec<u16> = Vec::new();
        let mut i: usize = 0;
        while i < self.entries.len()
            invariant
                i <= self.entries@.len(),
                order@ == self.ordered(),
                out@ == outside(self.entries@, self.ordered(), i as nat),
            decreases self.entries@.len() - i,
        {
            let slot: u16 = self.entries[i].0;
            if !holds_slot(order, slot) {
                out.push(slot);
            }
            i += 1;
        }
        out
    }

    /// The entry in this slot, if there is one.
    pub open spec fn found(self, slot: u16) -> Option<Result<LoadOption, String>> {
        entry_from(self.entries@, slot, 0)
    }

    pub fn get(&self, slot: u16) -> (r: Option<&Result<LoadOption, String>>)
        ensures
            match r {
                Some(entry) => self.found(slot) == Some(*entry),
                None => self.found(slot) is None,
            },
    {
        let mut i: usize = 0;
        while i < self.entries.len()
            invariant
                i <= self.entries@.len(),
                entry_from(self.entries@, slot, 0) == entry_from(self.entries@, slot, i as int),
            decreases self.entries@.len() - i,
        {
            if self.entries[i].0 == slot {
                return Some(&self.entries[i].1);
            }
            i += 1;
        }
        None
    }
}

/// An orphan is an entry, and the order does not name it; every entry the
/// order does not name is an orphan.
pub proof fn orphans_are_what_the_order_misses(
    entries: Seq<(u16, Result<LoadOption, String>)>,
    order: Seq<u16>,
    n: nat,
    slot: u16,
)
    requires
        n <= entries.len(),
    ensures
        outside(entries, order, n).contains(slot) <==> !order.contains(slot) && exists|i: int|
            0 <= i < n && (#[trigger] entries[i]).0 == slot,
    decreases n,
{
    if n > 0 {
        orphans_are_what_the_order_misses(entries, order, (n - 1) as nat, slot);
        let before = outside(entries, order, (n - 1) as nat);
        let last = entries[n - 1].0;
        let all = outside(entries, order, n);
        if before.contains(slot) {
            let i = choose|i: int| 0 <= i < before.len() && before[i] == slot;
            assert(all[i] == slot);
        }
        if !order.contains(last) && last == slot {
            assert(all[before.len() as int] == slot);
        }
        if all.contains(slot) && !before.contains(slot) {
            let i = choose|i: int| 0 <= i < all.len() && all[i] == slot;
            assert(i == before.len());
            assert(entries[n - 1].0 == slot);
        }
        if exists|i: int| 0 <= i < n && (#[trigger] entries[i]).0 == slot {
            let i = choose|i: int| 0 <= i < n && (#[trigger] entries[i]).0 == slot;
            if i < n - 1 {
                assert(entries[i].0 == slot);
            }
        }
    }
}

// ------------------------------------------------------- reading the store

/// A refusal to walk the variable store for ever.
///
/// `GetNextVariableName` is firmware-driven iteration, and firmware that
/// repeats a key or never says it is done is a known enough bug class to be
/// worth a bound. Real stores hold a few dozen to a few hundred variables.
pub const MAX_VARIABLES: usize = 1024;

/// One step of the walk: the name of a variable, and whether it is one of
/// the firmware's own.
pub struct VarKey {
    pub global: bool,
    pub name: String,
}

/// The walk over the variable store.
pub struct Walk {
    /// The boot slots seen, lowest first, each once.
    pub slots: Vec<u16>,
    /// How many of the firmware's own names were seen.
    ///
    /// Counted after the namespace is looked at, not before: counting every
    /// namespace against the bound would let a few hundred unrelated
    /// variables end the walk before it has seen the entries it came for.
    pub seen: usize,
    /// Why it stopped early, if it did.
    pub truncated: Option<String>,
}

/// Lowest first, each once.
pub open spec fn ascending(slots: Seq<u16>) -> bool {
    forall|i: int, j: int| 0 <= i < j < slots.len() ==> slots[i] < slots[j]
}

/// Why a walk that went on too long was stopped.
pub open spec fn stopped_text() -> Seq<char> {
    "the variable store walk was stopped after "@ + dec(MAX_VARIABLES as nat)
        + " global names; the firmware may be repeating itself"@
}

impl Walk {
    /// The slots are in order, and nothing was counted past the bound.
    pub open spec fn wf(self) -> bool {
        ascending(self.slots@) && self.seen <= MAX_VARIABLES
    }

    pub fn new() -> (r: Self)
        ensures
            r.wf(),
            r.slots@.len() == 0,
            r.seen == 0,
            r.truncated is None,
    {
        Walk { slots: Vec::new(), seen: 0, truncated: None }
    }

    fn insert(&mut self, slot: u16)
        requires
            old(self).wf(),
        ensures
            final(self).wf(),
            final(self).seen == old(self).seen,
            final(self).truncated == old(self).truncated,
            forall|s: u16|
                final(self).slots@.contains(s) <==> old(self).slots@.contains(s) || s == slot,
    {
        let ghost before = self.slots@;
        let mut at: usize = 0;
        while at < self.slots.len() && self.slots[at] < slot
            invariant
                at <= self.slots@.len(),
                forall|j: int| 0 <= j < at ==> self.slots@[j] < slot,
            decreases self.slots@.len() - at,
        {
            at += 1;
        }
        if at < self.slots.len() && self.slots[at] == slot {
            assert(before[at as int] == slot);
            return;
        }
        self.slots.insert(at, slot);
        proof {
            let after = self.slots@;
            assert(after == before.insert(at as int, slot));
            assert forall|s: u16| after.contains(s) <==> before.contains(s) || s == slot by {
                if before.contains(s) {
                    let j = choose|j: int| 0 <= j < before.len() && before[j] == s;
                    if j < at {
                        assert(after[j] == s);
                    } else {
                        assert(after[j + 1] == s);
                    }
                }
                if s == slot {
                    assert(after[at as int] == s);
                }
                if after.contains(s) && s != slot {
                    let j = choose|j: int| 0 <= j < after.len() && after[j] == s;
                    if j < at {
                        assert(before[j] == s);
                    } else {
                        assert(before[j - 1] == s);
                    }
                }
            }
        }
    }

    /// Take in one step of the walk, or the status it failed with, and say
    /// whether to go on.
    pub fn see(&mut self, key: Result<VarKey, String>) -> (r: bool)
        requires
            old(self).wf(),
        ensures
            final(self).wf(),
            r == (old(self).seen < MAX_VARIABLES && key is Ok),
            if old(self).seen >= MAX_VARIABLES {
                &&& final(self).truncated matches Some(t) && t@ == stopped_text()
                &&& final(self).slots@ == old(self).slots@
                &&& final(self).seen == old(self).seen
            } else {
                match key {
                    Err(e) => {
                        &&& final(self).truncated matches Some(t) && t@ == status_text(
                            "the variable store could not be walked to the end"@,
                            e@,
                        )
                        &&& final(self).slots@ == old(self).slots@
                        &&& final(self).seen == old(self).seen
                    },
                    Ok(k) => {
                        &&& final(self).truncated == old(self).truncated
                        &&& final(self).seen == old(self).seen + (if k.global {
                            1int
                        } else {
                            0
                        })
                        &&& forall|s: u16|
                            final(self).slots@.contains(s) <==> old(self).slots@.contains(s) || (
                            k.global && slot_of_text(k.name@) == Some(s))
                    },
                }
            },
    {
        if self.seen >= MAX_VARIABLES {
            let mut s = "the variable store walk was stopped after ".to_owned();
            s.push_str(dec_text(MAX_VARIABLES as u64).as_str());
            s.push_str(" global names; the firmware may be repeating itself");
            self.truncated = Some(s);
            return false;
        }
        let key = match key {
            Ok(key) => key,
            Err(e) => {
                self.truncated = Some(
                    err("the variable store could not be walked to the end", e.as_str()),
                );
                return false;
            },
        };
        if !key.global {
            return true;
        }
        self.seen = self.seen + 1;
        if let Some(slot) = parse_slot(key.name.as_str()) {
            self.insert(slot);
        }
        true
    }
}

/// What a two-byte variable holds: a variable of the wrong size is treated
/// as absent rather than guessed at.
pub open spec fn two_bytes(reply: Reply) -> Option<u16> {
    match reply {
        Ok(Some(data)) => if data@.len() == 2 {
            Some(le16(data@, 0))
        } else {
            None
        },
        _ => None,
    }
}

/// A `u16` variable: `BootCurrent`, `BootNext`, `Timeout`.
///
/// These three are decoration on the screen; refusing to show the whole
/// page because the firmware stored a four-byte `Timeout` would be the
/// wrong trade.
pub fn get_u16(reply: &Reply) -> (r: Option<u16>)
    ensures
        r == two_bytes(*reply),
{
    match reply {
        Ok(Some(data)) => if data.len() == 2 {
            Some(rd_u16(data.as_slice(), 0))
        } else {
            None
        },
        _ => None,
    }
}

/// An entry, or why there is none, as values.
pub open spec fn entry_view(entry: Result<LoadOption, String>) -> Result<
    LoadOptionView,
    Seq<char>,
> {
    match entry {
        Ok(o) => Ok(o@),
        Err(e) => Err(e@),
    }
}

/// What is known of the entry behind a variable.
pub open spec fn fetched(reply: Reply) -> Result<LoadOptionView, Seq<char>> {
    match reply {
        Ok(Some(data)) => match option_says(data@) {
            Ok(o) => Ok(o),
            Err(e) => Err(e.message()),
        },
        Ok(None) => Err("disappeared while being read"@),
        Err(e) => Err(e@),
    }
}

fn fetch(reply: &Reply) -> (r: Result<LoadOption, String>)
    ensures
        entry_view(r) == fetched(*reply),
{
    match reply {
        Ok(Some(data)) => match decode(data.as_slice()) {
            Ok(o) => Ok(o),
            Err(e) => Err(e.to_text()),
        },
        // Present during the walk, gone by the time it was asked for.
        // Reported rather than treated as never having been there.
        Ok(None) => Err("disappeared while being read".to_owned()),
        Err(e) => Err(e.clone()),
    }
}

/// What is known of the order behind its variable: none at all is an empty
/// one.
pub open spec fn order_fetched(reply: Reply) -> Result<Seq<u16>, Seq<char>> {
    match reply {
        Ok(Some(data)) => match order_says(data@) {
            Ok(order) => Ok(order),
            Err(e) => Err(e.message()),
        },
        Ok(None) => Ok(Seq::empty()),
        Err(e) => Err(e@),
    }
}

/// The order, or why there is none, as values.
pub open spec fn order_view(order: Result<Vec<u16>, String>) -> Result<Seq<u16>, Seq<char>> {
    match order {
        Ok(order) => Ok(order@),
        Err(e) => Err(e@),
    }
}

fn fetch_order(reply: &Reply) -> (r: Result<Vec<u16>, String>)
    ensures
        order_view(r) == order_fetched(*reply),
{
    match reply {
        Ok(Some(data)) => match decode_order(data.as_slice()) {
            Ok(order) => Ok(order),
            Err(e) => Err(e.to_text()),
        },
        Ok(None) => {
            let none: Vec<u16> = Vec::new();
            assert(none@ =~= Seq::<u16>::empty());
            Ok(none)
        },
        Err(e) => Err(e.clone()),
    }
}

/// The variables that are not entries and say how the machine boots, in the
/// order they are read.
pub open spec fn read_after_entries() -> Seq<Seq<char>> {
    seq!["BootOrder"@, "BootCurrent"@, "BootNext"@, "Timeout"@]
}

/// What to do next about reading the boot configuration.
pub enum ReadStep {
    /// Ask for this variable.
    Ask(String),
    /// Every variable was asked for: this is what they say.
    Done(BootState),
}

impl BootState {
    /// This is what a walk and the answers for what it found come to: every
    /// slot of the walk, in its order, and then the others.
    pub open spec fn says(self, walk: Walk, replies: Seq<Reply>) -> bool {
        let n = walk.slots@.len() as int;
        &&& self.entries@.len() == n
        &&& forall|i: int|
            0 <= i < n ==> (#[trigger] self.entries@[i]).0 == walk.slots@[i] && entry_view(
                self.entries@[i].1,
            ) == fetched(replies[i])
        &&& order_view(self.order) == order_fetched(replies[n])
        &&& self.current == two_bytes(replies[n + 1])
        &&& self.next == two_bytes(replies[n + 2])
        &&& self.timeout == two_bytes(replies[n + 3])
        &&& content_of(self.truncated) == content_of(walk.truncated)
    }
}

/// The whole boot configuration: what to do next, given what the store
/// answered so far. The entries are asked for first, lowest slot first.
pub fn read(walk: &Walk, replies: &[Reply]) -> (r: ReadStep)
    ensures
        match r {
            ReadStep::Ask(name) => {
                let k = replies@.len() as int;
                let n = walk.slots@.len() as int;
                &&& k < n + 4
                &&& name@ == if k < n {
                    slot_text(walk.slots@[k])
                } else {
                    read_after_entries()[k - n]
                }
            },
            ReadStep::Done(state) => replies@.len() >= walk.slots@.len() + 4 && state.says(
                *walk,
                replies@,
            ),
        },
{
    let n: usize = walk.slots.len();
    let k: usize = replies.len();
    if k < n {
        return ReadStep::Ask(slot_name(walk.slots[k]));
    }
    if k - n < 4 {
        return ReadStep::Ask(
            if k - n == 0 {
                "BootOrder".to_owned()
            } else if k - n == 1 {
                "BootCurrent".to_owned()
            } else if k - n == 2 {
                "BootNext".to_owned()
            } else {
                "Timeout".to_owned()
            },
        );
    }
    let mut entries: Vec<(u16, Result<LoadOption, String>)> = Vec::new();
    let mut i: usize = 0;
    while i < n
        invariant
            i <= n,
            n == walk.slots@.len(),
            n <= replies@.len(),
            entries@.len() == i,
            forall|j: int|
                0 <= j < i ==> (#[trigger] entries@[j]).0 == walk.slots@[j] && entry_view(
                    entries@[j].1,
                ) == fetched(replies@[j]),
        decreases n - i,
    {
        entries.push((walk.slots[i], fetch(&replies[i])));
        i += 1;
    }
    ReadStep::Done(
        BootState {
            current: get_u16(&replies[n + 1]),
            next: get_u16(&replies[n + 2]),
            timeout: get_u16(&replies[n + 3]),
            order: fetch_order(&replies[n]),
            entries,
            truncated: walk.truncated.clone(),
        },
    )
}

/// The entries of a boot configuration that was read are in order, lowest
/// slot first, whatever order the firmware walked its store in.
pub proof fn entries_are_read_lowest_first(
    state: BootState,
    walk: Walk,
    replies: Seq<Reply>,
    i: int,
    j: int,
)
    requires
        walk.wf(),
        state.says(walk, replies),
        0 <= i < j < state.entries@.len(),
    ensures
        state.entries@[i].0 < state.entries@[j].0,
{
}

// ------------------------------------------------------- saving the store

/// A variable's name and bytes, as values.
pub open spec fn var_view(v: (String, Vec<u8>)) -> (Seq<char>, Seq<u8>) {
    (v.0@, v.1@)
}

/// The variables worth saving, in the order they are saved: the settings,
/// then the slots.
pub open spec fn saveable(slots: Seq<u16>) -> Seq<Seq<char>> {
    setting_names() + Seq::new(slots.len(), |i: int| slot_text(slots[i]))
}

/// The variables worth saving, in the order they are saved: the settings,
/// then the slots.
pub fn saveable_names(slots: &[u16]) -> (r: Vec<String>)
    ensures
        strings_of(r@) == saveable(slots@),
{
    let known = settings();
    let ghost first = setting_names();
    assert(texts_of(known@).len() == first.len());
    let mut out: Vec<String> = Vec::new();
    let mut i: usize = 0;
    while i < known.len()
        invariant
            i <= known@.len(),
            texts_of(known@) == first,
            strings_of(out@) =~= first.take(i as int),
        decreases known@.len() - i,
    {
        let ghost before = strings_of(out@);
        let name = known[i].to_owned();
        let ghost text = name@;
        assert(text == texts_of(known@)[i as int]);
        out.push(name);
        assert(strings_of(out@) =~= before.push(text));
        i += 1;
    }
    assert(first.take(i as int) =~= first);
    let mut i: usize = 0;
    while i < slots.len()
        invariant
            i <= slots@.len(),
            first == setting_names(),
            strings_of(out@) =~= saveable(slots@).take(first.len() + i),
        decreases slots@.len() - i,
    {
        let ghost before = strings_of(out@);
        out.push(slot_name(slots[i]));
        assert(strings_of(out@) =~= before.push(slot_text(slots@[i as int])));
        i += 1;
    }
    assert(saveable(slots@).take(first.len() + i) =~= saveable(slots@));
    out
}

/// The variables among the first `n` that are there.
pub open spec fn held(names: Seq<Seq<char>>, replies: Seq<Reply>, n: nat) -> Seq<
    (Seq<char>, Seq<u8>),
>
    decreases n,
{
    if n == 0 {
        Seq::empty()
    } else {
        let before = held(names, replies, (n - 1) as nat);
        match replies[n - 1] {
            Ok(Some(data)) => before.push((names[n - 1], data@)),
            _ => before,
        }
    }
}

/// The names of the variables among the first `n` that could not be read.
pub open spec fn unread(names: Seq<Seq<char>>, replies: Seq<Reply>, n: nat) -> Seq<Seq<char>>
    decreases n,
{
    if n == 0 {
        Seq::empty()
    } else {
        let before = unread(names, replies, (n - 1) as nat);
        match replies[n - 1] {
            Err(_) => before.push(names[n - 1]),
            _ => before,
        }
    }
}

/// What to do next about saving the store.
pub enum CaptureStep {
    /// Ask for this variable.
    Read(String),
    /// Every variable there is, and the names of what could not be read.
    Done(Vec<(String, Vec<u8>)>, Vec<String>),
}

/// What a [`CaptureStep`] says, as a value.
pub enum CaptureView {
    Read(Seq<char>),
    Done(Seq<(Seq<char>, Seq<u8>)>, Seq<Seq<char>>),
}

impl View for CaptureStep {
    type V = CaptureView;

    open spec fn view(&self) -> CaptureView {
        match self {
            CaptureStep::Read(name) => CaptureView::Read(name@),
            CaptureStep::Done(vars, missed) => CaptureView::Done(
                vars_of(vars@),
                strings_of(missed@),
            ),
        }
    }
}

/// What comes after these answers: the next variable in order, and once all
/// were asked for, what they came to. A walk that stopped early counts as the
/// first thing missed.
pub open spec fn next_capture(
    slots: Seq<u16>,
    truncated: Option<Seq<char>>,
    replies: Seq<Reply>,
) -> CaptureView {
    let names = saveable(slots);
    if replies.len() < names.len() {
        CaptureView::Read(names[replies.len() as int])
    } else {
        CaptureView::Done(
            held(names, replies, names.len()),
            (match truncated {
                Some(t) => seq![t],
                None => Seq::<Seq<char>>::empty(),
            }) + unread(names, replies, names.len()),
        )
    }
}

/// Every variable the boot process depends on, verbatim, and what could not
/// be read: what to do next, given what the firmware answered so far.
///
/// Raw bytes, not decoded entries: this feeds a snapshot whose whole
/// purpose is to survive a `Boot####` this build cannot parse. Variables
/// that are absent are skipped, and one that cannot be read is skipped too,
/// with its name returned so the caller can say the copy is partial rather
/// than quietly presenting it as complete.
pub fn capture(walk: &Walk, replies: &[Reply]) -> (r: CaptureStep)
    ensures
        r@ == next_capture(walk.slots@, content_of(walk.truncated), replies@),
{
    let names = saveable_names(walk.slots.as_slice());
    let ghost all = strings_of(names@);
    if replies.len() < names.len() {
        let name = names[replies.len()].clone();
        assert(name@ == all[replies@.len() as int]);
        return CaptureStep::Read(name);
    }
    let mut vars: Vec<(String, Vec<u8>)> = Vec::new();
    let mut missed: Vec<String> = Vec::new();
    if let Some(t) = &walk.truncated {
        missed.push(t.clone());
    }
    let ghost first = strings_of(missed@);
    assert(first =~= match content_of(walk.truncated) {
        Some(t) => seq![t],
        None => Seq::<Seq<char>>::empty(),
    });
    let mut i: usize = 0;
    assert(vars_of(vars@) =~= held(all, replies@, 0));
    assert(strings_of(missed@) =~= first + unread(all, replies@, 0));
    while i < names.len()
        invariant
            i <= names@.len() <= replies@.len(),
            all == strings_of(names@),
            vars_of(vars@) == held(all, replies@, i as nat),
            strings_of(missed@) == first + unread(all, replies@, i as nat),
        decreases names@.len() - i,
    {
        let ghost vars_before = vars_of(vars@);
        let ghost missed_before = strings_of(missed@);
        let name = names[i].clone();
        assert(name@ == all[i as int]);
        match &replies[i] {
            Ok(Some(data)) => {
                let copy = copied(data.as_slice(), 0, data.len());
                assert(copy@ =~= data@);
                let var = (name, copy);
                let ghost view = var_view(var);
                vars.push(var);
                assert(vars_of(vars@) =~= vars_before.push(view));
            },
            Ok(None) => {},
            Err(_) => {
                let ghost text = name@;
                missed.push(name);
                assert(strings_of(missed@) =~= missed_before.push(text));
            },
        }
        i += 1;
        assert(strings_of(missed@) =~= first + unread(all, replies@, i as nat));
    }
    CaptureStep::Done(vars, missed)
}

/// A saved boot configuration lists the settings first and then the entries,
/// lowest slot first, whatever order the firmware walked its store in.
pub proof fn slots_are_saved_lowest_first(walk: Walk, i: int, j: int)
    requires
        walk.wf(),
        0 <= i < j < walk.slots@.len(),
    ensures
        saveable(walk.slots@).take(setting_names().len() as int) == setting_names(),
        saveable(walk.slots@)[setting_names().len() + i] == slot_text(walk.slots@[i]),
        saveable(walk.slots@)[setting_names().len() + j] == slot_text(walk.slots@[j]),
        walk.slots@[i] < walk.slots@[j],
{
    assert(saveable(walk.slots@).take(setting_names().len() as int) =~= setting_names());
}

// ------------------------------------------------------- writing the store

/// Why the firmware would not set a variable.
pub enum Refusal {
    WriteProtected,
    SecurityViolation,
    OutOfResources,
    /// Anything else, as the firmware names it.
    Other(String),
}

/// What the operator is told of a refusal.
pub open spec fn refusal_text(name: Seq<char>, why: Refusal) -> Seq<char> {
    match why {
        Refusal::WriteProtected => name
            + " is locked by the firmware. Some vendors seal the boot variables; look for a setting to unlock them."@,
        Refusal::SecurityViolation => name
            + " was refused by Secure Boot policy. Boot variables cannot be changed from here while the firmware is in user mode."@,
        Refusal::OutOfResources => "there is no room left in NVRAM for "@ + name
            + ". Delete some boot entries from the firmware's own menu first."@,
        Refusal::Other(status) => name + " could not be written ("@ + status@ + ")"@,
    }
}

/// Turn a refusal into something the operator can act on.
///
/// The first three are not bugs and not hardware faults; they are the
/// firmware saying no for a reason worth naming.
pub fn write_error(name: &str, why: &Refusal) -> (r: String)
    ensures
        r@ == refusal_text(name@, *why),
{
    match why {
        Refusal::WriteProtected => {
            let mut s = name.to_owned();
            s.push_str(
                " is locked by the firmware. Some vendors seal the boot variables; look for a setting to unlock them.",
            );
            s
        },
        Refusal::SecurityViolation => {
            let mut s = name.to_owned();
            s.push_str(
                " was refused by Secure Boot policy. Boot variables cannot be changed from here while the firmware is in user mode.",
            );
            s
        },
        Refusal::OutOfResources => {
            let mut s = "there is no room left in NVRAM for ".to_owned();
            s.push_str(name);
            s.push_str(". Delete some boot entries from the firmware's own menu first.");
            s
        },
        Refusal::Other(status) => {
            let mut s = name.to_owned();
            s.push_str(" could not be written (");
            s.push_str(status.as_str());
            s.push_str(")");
            s
        },
    }
}

/// What to do next about a list of writes.
pub enum ApplyStep {
    /// Set the variable of this write.
    Write(usize),
    /// Every write has landed.
    Done,
    /// Stopped: how many had landed, and why no more did.
    Failed(usize, String),
}

/// What an [`ApplyStep`] says, as a value.
pub enum ApplyView {
    Write(nat),
    Done,
    Failed(nat, Seq<char>),
}

impl View for ApplyStep {
    type V = ApplyView;

    open spec fn view(&self) -> ApplyView {
        match self {
            ApplyStep::Write(i) => ApplyView::Write(*i as nat),
            ApplyStep::Done => ApplyView::Done,
            ApplyStep::Failed(n, why) => ApplyView::Failed(*n as nat, why@),
        }
    }
}

/// What comes after the first `n` answers: the first that was a refusal
/// ends it, and so does a name that may not be written at all.
pub open spec fn next_write(
    writes: Seq<VarWrite>,
    replies: Seq<Result<(), String>>,
    n: nat,
) -> ApplyView
    decreases replies.len() - n,
{
    if n >= writes.len() {
        ApplyView::Done
    } else if !writable(writes[n as int].name@) {
        ApplyView::Failed(n, writes[n as int].name@ + " is not a variable this tool writes"@)
    } else if n >= replies.len() {
        ApplyView::Write(n)
    } else {
        match replies[n as int] {
            Err(e) => ApplyView::Failed(n, e@),
            Ok(_) => next_write(writes, replies, n + 1),
        }
    }
}

/// Apply a plan in order, stopping at the first refusal: what to do next,
/// given what the firmware answered so far.
///
/// The name is checked here as well as where the plan is built, because
/// this is the only place a name becomes a variable that is set. Everything
/// upstream of it (a snapshot decoded off a USB stick, a plan, a review
/// screen the operator may have skimmed) is a description of what to write;
/// this is the writing.
///
/// The failure names how many writes had already landed, because a plan
/// that stopped halfway leaves NVRAM in a state the operator needs
/// described.
pub fn apply(writes: &[VarWrite], replies: &[Result<(), String>]) -> (r: ApplyStep)
    ensures
        r@ == next_write(writes@, replies@, 0),
{
    let mut n: usize = 0;
    loop
        invariant
            n <= writes@.len(),
            next_write(writes@, replies@, 0) == next_write(writes@, replies@, n as nat),
        decreases writes@.len() - n,
    {
        if n >= writes.len() {
            return ApplyStep::Done;
        }
        if !may_write(writes[n].name.as_str()) {
            let mut s = writes[n].name.clone();
            s.push_str(" is not a variable this tool writes");
            return ApplyStep::Failed(n, s);
        }
        if n >= replies.len() {
            return ApplyStep::Write(n);
        }
        match &replies[n] {
            Err(e) => return ApplyStep::Failed(n, e.clone()),
            Ok(_) => {},
        }
        n += 1;
    }
}

/// A variable is only ever set if its name may be written, and only once
/// every write before it has landed.
pub proof fn writes_happen_in_order(
    writes: Seq<VarWrite>,
    replies: Seq<Result<(), String>>,
    n: nat,
    k: nat,
)
    requires
        n <= replies.len(),
        next_write(writes, replies, n) == ApplyView::Write(k),
    ensures
        k == replies.len(),
        k < writes.len(),
        writable(writes[k as int].name@),
        forall|i: int| n <= i < k ==> (#[trigger] replies[i]) is Ok,
    decreases replies.len() - n,
{
    if n < replies.len() {
        writes_happen_in_order(writes, replies, n + 1, k);
    }
}


// --------------------------------------------------------- laws on the rest

/// An entry is looked up by its slot: it is found exactly where the store has
/// one, and what is found is the first that the store has.
pub proof fn an_entry_is_found_by_its_slot(state: BootState, slot: u16)
    ensures
        state.found(slot) is Some <==> exists|i: int|
            0 <= i < state.entries@.len() && (#[trigger] state.entries@[i]).0 == slot,
        state.found(slot) matches Some(entry) ==> exists|i: int|
            0 <= i < state.entries@.len() && #[trigger] state.entries@[i] == (slot, entry) && forall|
                j: int,
            |
                0 <= j < i ==> (#[trigger] state.entries@[j]).0 != slot,
{
    found_from(state.entries@, slot, 0);
}

proof fn found_from(entries: Seq<(u16, Result<LoadOption, String>)>, slot: u16, from: int)
    requires
        0 <= from <= entries.len(),
    ensures
        entry_from(entries, slot, from) is Some <==> exists|i: int|
            from <= i < entries.len() && (#[trigger] entries[i]).0 == slot,
        entry_from(entries, slot, from) matches Some(entry) ==> exists|i: int|
            from <= i < entries.len() && #[trigger] entries[i] == (slot, entry) && forall|j: int|
                from <= j < i ==> (#[trigger] entries[j]).0 != slot,
    decreases entries.len() - from,
{
    if from < entries.len() {
        if entries[from].0 != slot {
            found_from(entries, slot, from + 1);
            if exists|i: int| from <= i < entries.len() && (#[trigger] entries[i]).0 == slot {
                let i = choose|i: int|
                    from <= i < entries.len() && (#[trigger] entries[i]).0 == slot;
                assert(from + 1 <= i);
            }
        } else {
            assert(entries[from] == (slot, entries[from].1));
        }
    }
}

/// What was read is what the store answered: an entry is what its bytes
/// decode to, one that could not be read is kept as a failure rather than
/// dropped, a store with no order has an empty one, and a setting is there
/// only if it has two bytes, the low one first.
pub proof fn what_was_read_is_what_the_store_holds(
    state: BootState,
    walk: Walk,
    replies: Seq<Reply>,
    i: int,
)
    requires
        state.says(walk, replies),
        0 <= i < walk.slots@.len(),
        replies.len() == walk.slots@.len() + 4,
    ensures
        state.entries@.len() == walk.slots@.len(),
        state.entries@[i].0 == walk.slots@[i],
        replies[i] is Err || replies[i] == Ok::<Option<Vec<u8>>, String>(None)
            ==> state.entries@[i].1 is Err,
        replies[i] matches Ok(Some(data)) ==> (option_says(data@) matches Ok(o)
            ==> state.entries@[i].1 matches Ok(entry) && entry@ == o),
        replies[i] matches Ok(Some(data)) ==> (option_says(data@) is Err
            ==> state.entries@[i].1 is Err),
        replies[walk.slots@.len() as int] == Ok::<Option<Vec<u8>>, String>(None)
            ==> (state.order matches Ok(order) && order@.len() == 0),
        replies[walk.slots@.len() as int] is Err ==> state.order is Err,
        replies[walk.slots@.len() as int] matches Ok(Some(data)) ==> (order_says(data@) matches Ok(
            slots,
        ) ==> state.order matches Ok(order) && order@ == slots),
        replies[walk.slots@.len() + 1int] matches Ok(Some(data)) ==> (data@.len() == 2
            ==> state.current == Some(le16(data@, 0))),
        replies[walk.slots@.len() + 2int] matches Ok(Some(data)) ==> (data@.len() == 2 ==> state.next
            == Some(le16(data@, 0))),
        replies[walk.slots@.len() + 3int] matches Ok(Some(data)) ==> (data@.len() == 2
            ==> state.timeout == Some(le16(data@, 0))),
        state.next is Some ==> (replies[walk.slots@.len() + 2int] matches Ok(Some(data))
            && data@.len() == 2),
        state.truncated is Some <==> walk.truncated is Some,
{
    let e = state.entries@[i];
    assert(entry_view(e.1) == fetched(replies[i]));
}

/// A saved copy holds every variable that was there, under its name and with
/// its bytes, and no other.
pub proof fn a_copy_holds_what_was_there(
    names: Seq<Seq<char>>,
    replies: Seq<Reply>,
    n: nat,
    var: (Seq<char>, Seq<u8>),
)
    requires
        n <= names.len(),
        n <= replies.len(),
    ensures
        held(names, replies, n).contains(var) <==> exists|i: int|
            0 <= i < n && #[trigger] names[i] == var.0 && replies[i] is Ok && replies[i]->Ok_0 is Some
                && replies[i]->Ok_0->Some_0@ == var.1,
    decreases n,
{
    if n > 0 {
        let before = held(names, replies, (n - 1) as nat);
        let all = held(names, replies, n);
        a_copy_holds_what_was_there(names, replies, (n - 1) as nat, var);
        if before.contains(var) {
            let k = choose|k: int| 0 <= k < before.len() && before[k] == var;
            assert(all[k] == var);
        }
        if let Ok(Some(data)) = replies[n - 1] {
            assert(all[before.len() as int] == (names[n - 1], data@));
            if all.contains(var) && !before.contains(var) {
                let k = choose|k: int| 0 <= k < all.len() && all[k] == var;
                assert(k == before.len());
                assert(names[n - 1] == var.0);
            }
        }
    }
}

/// What could not be read is named as missing, and nothing else is.
pub proof fn a_copy_names_what_it_misses(
    names: Seq<Seq<char>>,
    replies: Seq<Reply>,
    n: nat,
    name: Seq<char>,
)
    requires
        n <= names.len(),
        n <= replies.len(),
    ensures
        unread(names, replies, n).contains(name) <==> exists|i: int|
            0 <= i < n && #[trigger] names[i] == name && replies[i] is Err,
    decreases n,
{
    if n > 0 {
        let before = unread(names, replies, (n - 1) as nat);
        let all = unread(names, replies, n);
        a_copy_names_what_it_misses(names, replies, (n - 1) as nat, name);
        if before.contains(name) {
            let k = choose|k: int| 0 <= k < before.len() && before[k] == name;
            assert(all[k] == name);
        }
        if replies[n - 1] is Err {
            assert(all[before.len() as int] == names[n - 1]);
            if all.contains(name) && !before.contains(name) {
                let k = choose|k: int| 0 <= k < all.len() && all[k] == name;
                assert(k == before.len());
                assert(names[n - 1] == name);
            }
        }
    }
}

/// The copy asks for the order, for the next boot, for the timeout and for
/// every entry that was seen, and is done only then. That the walk stopped
/// early is the first thing it says.
pub proof fn every_variable_is_asked_for(
    slots: Seq<u16>,
    truncated: Option<Seq<char>>,
    replies: Seq<Reply>,
    i: int,
)
    requires
        0 <= i < slots.len(),
    ensures
        saveable(slots).len() == slots.len() + 3,
        saveable(slots).contains("BootOrder"@),
        saveable(slots).contains("BootNext"@),
        saveable(slots).contains("Timeout"@),
        saveable(slots)[3 + i] == slot_text(slots[i]),
        replies.len() < slots.len() + 3 ==> next_capture(slots, truncated, replies)
            == CaptureView::Read(saveable(slots)[replies.len() as int]),
        replies.len() >= slots.len() + 3 ==> next_capture(slots, truncated, replies) is Done,
        replies.len() >= slots.len() + 3 ==> (truncated matches Some(why) ==> next_capture(
            slots,
            truncated,
            replies,
        )->Done_1.len() > 0 && next_capture(slots, truncated, replies)->Done_1[0] == why),
{
    let all = saveable(slots);
    let first = setting_names();
    assert(first.len() == 3);
    assert(first.contains("BootOrder"@) && first.contains("BootNext"@) && first.contains(
        "Timeout"@,
    )) by {
        assert(first[0] == "BootOrder"@ || first[1] == "BootOrder"@ || first[2] == "BootOrder"@);
        assert(first[0] == "BootNext"@ || first[1] == "BootNext"@ || first[2] == "BootNext"@);
        assert(first[0] == "Timeout"@ || first[1] == "Timeout"@ || first[2] == "Timeout"@);
    }
    assert forall|name: Seq<char>| first.contains(name) implies all.contains(name) by {
        let k = choose|k: int| 0 <= k < first.len() && first[k] == name;
        assert(all[k] == name);
    }
}

/// A plan is done when every one of its writes has landed, and not before;
/// where it stops early, every write before that one had landed, and that one
/// was refused or may not be made.
pub proof fn a_plan_is_done_when_every_write_landed(
    writes: Seq<VarWrite>,
    replies: Seq<Result<(), String>>,
    n: nat,
)
    requires
        n <= replies.len(),
        n <= writes.len(),
    ensures
        next_write(writes, replies, n) is Done <==> writes.len() <= replies.len() && forall|i: int|
            n <= i < writes.len() ==> writable((#[trigger] writes[i]).name@) && replies[i] is Ok,
        next_write(writes, replies, n) matches ApplyView::Failed(k, why) ==> n <= k < writes.len()
            && (forall|i: int| n <= i < k ==> (#[trigger] replies[i]) is Ok) && (!writable(
            writes[k as int].name@,
        ) || (k < replies.len() && replies[k as int] is Err && why == replies[k as int]->Err_0@)),
    decreases replies.len() - n,
{
    if n < writes.len() && n < replies.len() && writable(writes[n as int].name@)
        && replies[n as int] is Ok {
        a_plan_is_done_when_every_write_landed(writes, replies, n + 1);
        if next_write(writes, replies, n) is Done {
            assert forall|i: int| n <= i < writes.len() implies writable(
                (#[trigger] writes[i]).name@,
            ) && replies[i] is Ok by {
                if i > n {
                    assert(n + 1 <= i);
                }
            }
        }
    } else if n < writes.len() {
        assert(!writable(writes[n as int].name@) || n >= replies.len() || replies[n as int] is Err);
    }
}

} // verus!
