//! Control commands that wait for a moment at which the panel can take them.
use std::sync::atomic::AtomicBool;
use std::sync::Arc;
use vstd::prelude::*;
use vstd::string::*;

use crate::bytes::same_bytes;
use crate::group_recovery::{elapsed, time_since};
use crate::media::indices;
use crate::registry::{lemma_picked_from, lemma_picked_has, lemma_picked_push, picked};
use crate::table::lemma_filter_push;
use crate::text::same_text;

verus! {

/// A control command that was handed to the stream thread because the panel was busy. It is sent
/// verbatim at the next safe point; the reply is read and discarded after `reply_wait`. Times
/// are in nanoseconds.
pub struct PendingCmd {
    pub label: &'static str,
    pub packet: Vec<u8>,
    pub reply_wait: u64,
    pub queued_at: u64,
    /// It may go out between chunks once the panel reports headroom. Otherwise the panel must be
    /// stopped and reinitialised for it.
    pub play_safe: bool,
    /// What a ring upload shows, so that the same is not uploaded twice.
    pub ring_key: Option<(Vec<u8>, u8)>,
    pub cancelled: Option<Arc<AtomicBool>>,
}

/// What an optional ring payload stands for.
pub open spec fn key_of(key: Option<(Vec<u8>, u8)>) -> Option<(Seq<u8>, u8)> {
    match key {
        Some(key) => Some((key.0@, key.1)),
        None => None,
    }
}

/// Whether two optional ring payloads are the same.
pub fn same_key(first: &Option<(Vec<u8>, u8)>, second: &Option<(Vec<u8>, u8)>) -> (same: bool)
    ensures
        same == (key_of(*first) == key_of(*second)),
{
    match (first, second) {
        (Some(a), Some(b)) => a.1 == b.1 && same_bytes(a.0.as_slice(), b.0.as_slice()),
        (None, None) => true,
        _ => false,
    }
}

/// A ring payload once more.
pub fn copy_key(key: &(Vec<u8>, u8)) -> (copy: (Vec<u8>, u8))
    ensures
        copy.0@ == key.0@,
        copy.1 == key.1,
{
    (crate::bytes::copy_bytes(&key.0), key.1)
}

/// The flag could have been read off an owner: it is what an acquiring load gave.
pub open spec fn stop_read_off(stop: Arc<AtomicBool>, flag: bool) -> bool {
    call_ensures(AtomicBool::load, (&*stop, std::sync::atomic::Ordering::Acquire), flag)
}

/// The flag could have been read off the command: it is what was read off its owner, and not set
/// for a command that has none.
pub open spec fn read_off(command: PendingCmd, flag: bool) -> bool {
    match command.cancelled {
        Some(stop) => stop_read_off(stop, flag),
        None => !flag,
    }
}

/// Whether the owner has given up by now.
pub fn is_stopped(stop: &Arc<AtomicBool>) -> (stopped: bool)
    ensures
        stop_read_off(*stop, stopped),
{
    stop.load(std::sync::atomic::Ordering::Acquire)
}

impl PendingCmd {
    /// Whether the owner of the command has given it up by now. A command without an owner is
    /// never given up.
    pub fn is_cancelled(&self) -> (cancelled: bool)
        ensures
            read_off(*self, cancelled),
    {
        match &self.cancelled {
            Some(stop) => is_stopped(stop),
            None => false,
        }
    }
}

/// The flags could have been read off the commands, one each.
pub open spec fn readable(queue: Seq<PendingCmd>, flags: Seq<bool>) -> bool {
    &&& flags.len() == queue.len()
    &&& forall|i: int|
        #![trigger flags[i]]
        0 <= i < queue.len() ==> read_off(queue[i], flags[i])
}

/// Reads which of the commands were given up.
pub fn cancelled_flags(queue: &Vec<PendingCmd>) -> (flags: Vec<bool>)
    ensures
        readable(queue@, flags@),
{
    let mut flags: Vec<bool> = Vec::new();
    let mut i: usize = 0;
    while i < queue.len()
        invariant
            i <= queue@.len(),
            flags@.len() == i,
            forall|j: int|
                #![trigger flags@[j]]
                0 <= j < i ==> read_off(queue@[j], flags@[j]),
        decreases queue@.len() - i,
    {
        flags.push(queue[i].is_cancelled());
        i += 1;
    }
    flags
}

/// The position of the first command of that label, from `from` on.
pub open spec fn labelled(queue: Seq<PendingCmd>, label: Seq<char>, from: int) -> Option<int>
    decreases queue.len() - from,
{
    if from >= queue.len() {
        None
    } else if queue[from].label@ == label {
        Some(from)
    } else {
        labelled(queue, label, from + 1)
    }
}

/// A command has another label.
pub open spec fn other_label(label: Seq<char>) -> spec_fn(PendingCmd) -> bool {
    |pending: PendingCmd| pending.label@ != label
}

/// The commands of other labels.
pub open spec fn without_label(queue: Seq<PendingCmd>, label: Seq<char>) -> Seq<PendingCmd> {
    queue.filter(other_label(label))
}

/// A newer ring upload waits already.
pub open spec fn outdated(
    queue: Seq<PendingCmd>,
    command: PendingCmd,
    previous_cancelled: bool,
) -> bool {
    labelled(queue, command.label@, 0) matches Some(i) && command.ring_key is Some
        && !previous_cancelled && queue[i].queued_at > command.queued_at
}

/// The queue once a command was added. The latest command of a label replaces earlier ones; one
/// that was given up, or that a newer ring upload overtook, is not added; and a command that may
/// be sent during play takes over the waiting time of the one it replaces.
pub open spec fn queued(
    queue: Seq<PendingCmd>,
    command: PendingCmd,
    cancelled: bool,
    previous_cancelled: bool,
) -> Seq<PendingCmd> {
    if cancelled || outdated(queue, command, previous_cancelled) {
        queue
    } else {
        without_label(queue, command.label@).push(
            PendingCmd {
                queued_at: match labelled(queue, command.label@, 0) {
                    Some(i) if command.play_safe => queue[i].queued_at,
                    _ => command.queued_at,
                },
                ..command
            },
        )
    }
}

/// The command that a new one of the label would replace.
pub fn find_labelled(queue: &Vec<PendingCmd>, label: &str) -> (found: Option<usize>)
    ensures
        match found {
            Some(i) => labelled(queue@, label@, 0) == Some(i as int) && i < queue@.len()
                && queue@[i as int].label@ == label@,
            None => labelled(queue@, label@, 0) is None,
        },
{
    let mut i: usize = 0;
    while i < queue.len()
        invariant
            i <= queue@.len(),
            labelled(queue@, label@, 0) == labelled(queue@, label@, i as int),
        decreases queue@.len() - i,
    {
        if same_text(queue[i].label, label) {
            return Some(i);
        }
        i += 1;
    }
    None
}

fn drop_labelled(queue: &mut Vec<PendingCmd>, label: &str)
    ensures
        final(queue)@ == without_label(old(queue)@, label@),
{
    let ghost all = queue@;
    let ghost keep = other_label(label@);
    let ghost mut done: int = 0;
    let mut i: usize = 0;
    proof {
        reveal(Seq::filter);
        assert(all.take(0).filter(keep).len() == 0);
        assert(queue@ =~= all.take(0).filter(keep) + all.skip(0));
    }
    while i < queue.len()
        invariant
            keep == other_label(label@),
            0 <= done <= all.len(),
            i == all.take(done).filter(keep).len(),
            queue@ == all.take(done).filter(keep) + all.skip(done),
        decreases all.len() - done,
    {
        proof {
            lemma_filter_push(all.take(done), all[done], keep);
            assert(all.take(done + 1) =~= all.take(done).push(all[done]));
            assert(queue@[i as int] == all.skip(done)[0]);
        }
        let ghost before = queue@;
        if same_text(queue[i].label, label) {
            let _ = queue.remove(i);
            assert(queue@ =~= all.take(done + 1).filter(keep) + all.skip(done + 1));
        } else {
            assert(queue@ =~= all.take(done + 1).filter(keep) + all.skip(done + 1));
            i += 1;
        }
        proof {
            done = done + 1;
        }
    }
    proof {
        assert(all.skip(done).len() == 0);
        assert(all.take(done) =~= all);
        assert(queue@ =~= all.filter(keep));
    }
}

/// Adds a command to the queue, given which of the two commands concerned were given up.
pub fn enqueue(
    queue: &mut Vec<PendingCmd>,
    command: PendingCmd,
    cancelled: bool,
    previous_cancelled: bool,
)
    ensures
        final(queue)@ == queued(old(queue)@, command, cancelled, previous_cancelled),
{
    if cancelled {
        return;
    }
    let mut command = command;
    if let Some(i) = find_labelled(queue, command.label) {
        let since: u64 = queue[i].queued_at;
        if command.ring_key.is_some() && !previous_cancelled && since > command.queued_at {
            return;
        }
        if command.play_safe {
            command.queued_at = since;
        }
    }
    drop_labelled(queue, command.label);
    queue.push(command);
}

/// The flag could have been read off the command that a new one would replace, if there is one.
pub open spec fn replaced_read_off(
    queue: Seq<PendingCmd>,
    command: PendingCmd,
    flag: bool,
) -> bool {
    labelled(queue, command.label@, 0) matches Some(i) ==> read_off(queue[i], flag)
}

/// `after` is the queue once the command was added, as far as the commands concerned were given up
/// when that was read off them.
pub open spec fn is_queued(
    queue: Seq<PendingCmd>,
    command: PendingCmd,
    after: Seq<PendingCmd>,
) -> bool {
    exists|cancelled: bool, previous_cancelled: bool|
        read_off(command, cancelled) && replaced_read_off(queue, command, previous_cancelled)
            && after == #[trigger] queued(queue, command, cancelled, previous_cancelled)
}

/// Adds a command to the queue. Which commands were given up is read off them.
pub fn queue_control(queue: &mut Vec<PendingCmd>, command: PendingCmd)
    ensures
        is_queued(old(queue)@, command, final(queue)@),
{
    let cancelled = command.is_cancelled();
    let previous_cancelled = match find_labelled(queue, command.label) {
        Some(i) => queue[i].is_cancelled(),
        None => false,
    };
    enqueue(queue, command, cancelled, previous_cancelled);
}

/// A command that was given up is not queued; one that was not waits last in the queue, unless a
/// newer ring upload overtook it.
pub proof fn lemma_only_live_commands_wait(
    queue: Seq<PendingCmd>,
    command: PendingCmd,
    previous_cancelled: bool,
)
    ensures
        queued(queue, command, true, previous_cancelled) == queue,
        !outdated(queue, command, previous_cancelled) ==> {
            let after = queued(queue, command, false, previous_cancelled);
            &&& after.len() > 0
            &&& after.last() == (PendingCmd { queued_at: after.last().queued_at, ..command })
        },
{
}

/// A ring upload that was added waits last in the queue, unless its owner gave it up or a newer
/// upload, which was not given up, waits in its place.
pub proof fn lemma_added_uploads_wait(
    queue: Seq<PendingCmd>,
    command: PendingCmd,
    after: Seq<PendingCmd>,
)
    requires
        is_queued(queue, command, after),
        !command.play_safe,
    ensures
        after.len() > 0 && after.last() == command || after == queue && (read_off(command, true) || (
        labelled(queue, command.label@, 0) matches Some(i) && read_off(queue[i], false)
            && queue[i].queued_at > command.queued_at)),
{
}

/// No two commands of the queue have one label.
pub open spec fn distinct_labels(queue: Seq<PendingCmd>) -> bool {
    forall|i: int, j: int|
        0 <= i < j < queue.len() ==> (#[trigger] queue[i]).label@ != (#[trigger] queue[j]).label@
}

proof fn lemma_filter_keeps_distinct(queue: Seq<PendingCmd>, keep: spec_fn(PendingCmd) -> bool)
    requires
        distinct_labels(queue),
    ensures
        distinct_labels(queue.filter(keep)),
        forall|i: int|
            0 <= i < queue.filter(keep).len() ==> queue.contains(#[trigger] queue.filter(keep)[i])
                && keep(queue.filter(keep)[i]),
    decreases queue.len(),
{
    reveal(Seq::filter);
    if queue.len() > 0 {
        let head = queue.drop_last();
        lemma_filter_keeps_distinct(head, keep);
        assert(queue =~= head.push(queue.last()));
        lemma_filter_push(head, queue.last(), keep);
        let passed = head.filter(keep);
        assert forall|i: int| 0 <= i < passed.len() implies queue.contains(#[trigger] passed[i])
            && passed[i].label@ != queue.last().label@ by {
            let k = choose|k: int| 0 <= k < head.len() && head[k] == passed[i];
            assert(queue[k] == passed[i]);
            assert(queue[k].label@ != queue[queue.len() - 1].label@);
        }
        assert forall|i: int| 0 <= i < queue.filter(keep).len() implies queue.contains(
            #[trigger] queue.filter(keep)[i],
        ) && keep(queue.filter(keep)[i]) by {
            if i < passed.len() {
                assert(queue.filter(keep)[i] == passed[i]);
            } else {
                assert(queue.filter(keep)[i] == queue[queue.len() - 1]);
            }
        }
    }
}

/// Adding a command never makes two commands of one label wait.
pub proof fn lemma_one_command_per_label(
    queue: Seq<PendingCmd>,
    command: PendingCmd,
    cancelled: bool,
    previous_cancelled: bool,
)
    requires
        distinct_labels(queue),
    ensures
        distinct_labels(queued(queue, command, cancelled, previous_cancelled)),
{
    lemma_filter_keeps_distinct(queue, other_label(command.label@));
}

/// The queue after commands of one label, which may be sent during play and have no owner, were
/// added one after the other.
pub open spec fn refilled(queue: Seq<PendingCmd>, commands: Seq<PendingCmd>) -> Seq<PendingCmd>
    decreases commands.len(),
{
    if commands.len() == 0 {
        queue
    } else {
        queued(refilled(queue, commands.drop_last()), commands.last(), false, false)
    }
}

/// However often a command that may be sent during play is replaced, the one that waits is the
/// latest, and it has waited since the first of them was added.
pub proof fn lemma_replacements_keep_the_first_time(label: Seq<char>, commands: Seq<PendingCmd>)
    requires
        commands.len() > 0,
        forall|i: int|
            0 <= i < commands.len() ==> (#[trigger] commands[i]).label@ == label
                && commands[i].play_safe && commands[i].ring_key is None,
    ensures
        refilled(Seq::empty(), commands) == seq![
            PendingCmd { queued_at: commands[0].queued_at, ..commands.last() },
        ],
    decreases commands.len(),
{
    reveal(Seq::filter);
    let before = commands.drop_last();
    let keep = other_label(label);
    if before.len() == 0 {
        assert(refilled(Seq::empty(), before) =~= Seq::<PendingCmd>::empty());
        assert(refilled(Seq::empty(), commands) =~= seq![
            PendingCmd { queued_at: commands[0].queued_at, ..commands.last() },
        ]);
    } else {
        assert forall|i: int| 0 <= i < before.len() implies (#[trigger] before[i]).label@ == label
            && before[i].play_safe && before[i].ring_key is None by {
            assert(before[i] == commands[i]);
        }
        lemma_replacements_keep_the_first_time(label, before);
        let waiting = PendingCmd { queued_at: commands[0].queued_at, ..before.last() };
        let queue = seq![waiting];
        assert(commands[commands.len() - 2] == before.last());
        assert(queue =~= Seq::<PendingCmd>::empty().push(waiting));
        lemma_filter_push(Seq::<PendingCmd>::empty(), waiting, keep);
        assert(queue.filter(keep) =~= Seq::<PendingCmd>::empty());
        assert(commands[commands.len() - 1] == commands.last());
        assert(without_label(queue, label) =~= Seq::<PendingCmd>::empty());
        assert(refilled(Seq::empty(), commands) =~= seq![
            PendingCmd { queued_at: commands[0].queued_at, ..commands.last() },
        ]);
    }
}

/// Takes the commands that may be sent during play out of the queue; both lists keep their
/// order.
pub fn split_play_safe(queue: &mut Vec<PendingCmd>) -> (safe: Vec<PendingCmd>)
    ensures
        safe@ == old(queue)@.filter(|c: PendingCmd| c.play_safe),
        final(queue)@ == old(queue)@.filter(|c: PendingCmd| !c.play_safe),
{
    let ghost all = queue@;
    let ghost fit = |c: PendingCmd| c.play_safe;
    let ghost unfit = |c: PendingCmd| !c.play_safe;
    let ghost mut done: int = 0;
    let mut safe: Vec<PendingCmd> = Vec::new();
    let mut rest: Vec<PendingCmd> = Vec::new();
    proof {
        reveal(Seq::filter);
        assert(safe@ =~= all.take(0).filter(fit));
        assert(rest@ =~= all.take(0).filter(unfit));
        assert(queue@ =~= all.skip(0));
    }
    while queue.len() > 0
        invariant
            fit == (|c: PendingCmd| c.play_safe),
            unfit == (|c: PendingCmd| !c.play_safe),
            0 <= done <= all.len(),
            queue@ == all.skip(done),
            safe@ == all.take(done).filter(fit),
            rest@ == all.take(done).filter(unfit),
        decreases all.len() - done,
    {
        proof {
            lemma_filter_push(all.take(done), all[done], fit);
            lemma_filter_push(all.take(done), all[done], unfit);
            assert(all.take(done + 1) =~= all.take(done).push(all[done]));
            assert(all.skip(done).remove(0) =~= all.skip(done + 1));
        }
        let command = queue.remove(0);
        if command.play_safe {
            safe.push(command);
        } else {
            rest.push(command);
        }
        proof {
            done = done + 1;
        }
    }
    assert(all.take(done) =~= all);
    *queue = rest;
    safe
}

/// The command at `i`, if it is live and as safe as asked for.
pub open spec fn live_at(queue: Seq<PendingCmd>, flags: Seq<bool>, play_safe: bool, i: int) -> Option<
    PendingCmd,
> {
    if !flags[i] && queue[i].play_safe == play_safe {
        Some(queue[i])
    } else {
        None
    }
}

/// The commands that were not given up and are as safe as asked for.
pub open spec fn live(queue: Seq<PendingCmd>, flags: Seq<bool>, play_safe: bool) -> Seq<PendingCmd> {
    picked(indices(queue.len()), |i: int| live_at(queue, flags, play_safe, i))
}

/// Takes the commands that need the panel reinitialised out of the queue, and drops those that
/// were given up, as the flags say.
pub fn split_unsafe(queue: &mut Vec<PendingCmd>, flags: &Vec<bool>) -> (taken: Vec<PendingCmd>)
    requires
        flags@.len() == old(queue)@.len(),
    ensures
        taken@ == live(old(queue)@, flags@, false),
        final(queue)@ == live(old(queue)@, flags@, true),
{
    let ghost all = queue@;
    let ghost n = indices(all.len());
    let ghost unfit = |i: int| live_at(all, flags@, false, i);
    let ghost fit = |i: int| live_at(all, flags@, true, i);
    let mut taken: Vec<PendingCmd> = Vec::new();
    let mut rest: Vec<PendingCmd> = Vec::new();
    let mut i: usize = 0;
    proof {
        assert(taken@ =~= picked(n.take(0), unfit));
        assert(rest@ =~= picked(n.take(0), fit));
        assert(queue@ =~= all.skip(0));
    }
    while i < flags.len()
        invariant
            n == indices(all.len()),
            unfit == (|i: int| live_at(all, flags@, false, i)),
            fit == (|i: int| live_at(all, flags@, true, i)),
            flags@.len() == all.len(),
            i <= all.len(),
            queue@ == all.skip(i as int),
            taken@ == picked(n.take(i as int), unfit),
            rest@ == picked(n.take(i as int), fit),
        decreases all.len() - i,
    {
        proof {
            lemma_picked_push(n, i as int, unfit);
            lemma_picked_push(n, i as int, fit);
            assert(n[i as int] == i as int);
            assert(all.skip(i as int).remove(0) =~= all.skip(i + 1));
        }
        let command = queue.remove(0);
        if !flags[i] {
            if command.play_safe {
                rest.push(command);
            } else {
                taken.push(command);
            }
        }
        i += 1;
    }
    assert(n.take(i as int) =~= n);
    *queue = rest;
    taken
}

/// The command is one of the queue that was not given up, and is as safe as asked for.
pub open spec fn is_live(
    queue: Seq<PendingCmd>,
    flags: Seq<bool>,
    play_safe: bool,
    command: PendingCmd,
) -> bool {
    exists|i: int|
        0 <= i < queue.len() && !flags[i] && (#[trigger] queue[i]) == command && command.play_safe
            == play_safe
}

/// What is taken out of the queue to be sent are exactly the commands that were not given up and
/// are as safe as asked for.
pub proof fn lemma_only_live_commands_are_sent(
    queue: Seq<PendingCmd>,
    flags: Seq<bool>,
    play_safe: bool,
)
    requires
        flags.len() == queue.len(),
    ensures
        forall|command: PendingCmd| #[trigger]
            live(queue, flags, play_safe).contains(command) <==> is_live(
                queue,
                flags,
                play_safe,
                command,
            ),
{
    let all = indices(queue.len());
    let pick = |i: int| live_at(queue, flags, play_safe, i);
    let sent = live(queue, flags, play_safe);
    assert forall|command: PendingCmd| #[trigger] sent.contains(command) implies is_live(
        queue,
        flags,
        play_safe,
        command,
    ) by {
        let k = choose|k: int| 0 <= k < sent.len() && sent[k] == command;
        let i = lemma_picked_from(all, pick, k);
        assert(all[i] == i);
        assert(queue[i] == command);
    }
    assert forall|command: PendingCmd|
        is_live(queue, flags, play_safe, command) implies #[trigger] sent.contains(command) by {
        let i = choose|i: int|
            0 <= i < queue.len() && !flags[i] && (#[trigger] queue[i]) == command
                && command.play_safe == play_safe;
        assert(all[i] == i);
        lemma_picked_has(all, pick, i);
    }
}

/// Some command that was not given up needs the panel reinitialised.
pub open spec fn any_unsafe(queue: Seq<PendingCmd>, flags: Seq<bool>) -> bool {
    exists|i: int| 0 <= i < queue.len() && !(#[trigger] queue[i]).play_safe && !flags[i]
}

/// Whether some command that was not given up needs the panel reinitialised.
pub fn unsafe_waiting(queue: &Vec<PendingCmd>, flags: &Vec<bool>) -> (waiting: bool)
    requires
        flags@.len() == queue@.len(),
    ensures
        waiting == any_unsafe(queue@, flags@),
{
    let mut i: usize = 0;
    while i < queue.len()
        invariant
            i <= queue@.len(),
            flags@.len() == queue@.len(),
            forall|j: int| 0 <= j < i ==> (#[trigger] queue@[j]).play_safe || flags@[j],
        decreases queue@.len() - i,
    {
        if !queue[i].play_safe && !flags[i] {
            return true;
        }
        i += 1;
    }
    false
}

/// Some command that was not given up uploads this payload.
pub open spec fn uploads(queue: Seq<PendingCmd>, flags: Seq<bool>, key: (Seq<u8>, u8)) -> bool {
    exists|i: int|
        0 <= i < queue.len() && !flags[i] && key_of((#[trigger] queue[i]).ring_key) == Some(key)
}

/// Whether some command that was not given up uploads this payload.
pub fn upload_waiting(queue: &Vec<PendingCmd>, flags: &Vec<bool>, key: &(Vec<u8>, u8)) -> (waiting:
    bool)
    requires
        flags@.len() == queue@.len(),
    ensures
        waiting == uploads(queue@, flags@, (key.0@, key.1)),
{
    let wanted = Some(copy_key(key));
    let mut i: usize = 0;
    while i < queue.len()
        invariant
            i <= queue@.len(),
            flags@.len() == queue@.len(),
            key_of(wanted) == Some((key.0@, key.1)),
            forall|j: int|
                0 <= j < i ==> flags@[j] || key_of((#[trigger] queue@[j]).ring_key) != Some(
                    (key.0@, key.1),
                ),
        decreases queue@.len() - i,
    {
        if !flags[i] && same_key(&queue[i].ring_key, &wanted) {
            return true;
        }
        i += 1;
    }
    false
}

/// No command that may be sent during play has waited longer than this, and one has.
pub open spec fn is_longest_wait(queue: Seq<PendingCmd>, now: u64, age: u64) -> bool {
    &&& exists|i: int|
        0 <= i < queue.len() && (#[trigger] queue[i]).play_safe && time_since(
            now,
            queue[i].queued_at,
        ) == age
    &&& forall|i: int|
        0 <= i < queue.len() && (#[trigger] queue[i]).play_safe ==> time_since(
            now,
            queue[i].queued_at,
        ) <= age
}

/// Some command may be sent during play.
pub open spec fn some_play_safe(queue: Seq<PendingCmd>) -> bool {
    exists|i: int| 0 <= i < queue.len() && (#[trigger] queue[i]).play_safe
}

/// How long the command that may be sent during play and has waited longest has waited.
pub fn longest_wait(queue: &Vec<PendingCmd>, now: u64) -> (age: Option<u64>)
    ensures
        age is Some <==> some_play_safe(queue@),
        match age {
            Some(age) => is_longest_wait(queue@, now, age),
            None => forall|i: int| 0 <= i < queue@.len() ==> !(#[trigger] queue@[i]).play_safe,
        },
{
    let mut longest: Option<u64> = None;
    let mut i: usize = 0;
    while i < queue.len()
        invariant
            i <= queue@.len(),
            match longest {
                Some(age) => {
                    &&& exists|j: int|
                        0 <= j < i && (#[trigger] queue@[j]).play_safe && time_since(
                            now,
                            queue@[j].queued_at,
                        ) == age
                    &&& forall|j: int|
                        0 <= j < i && (#[trigger] queue@[j]).play_safe ==> time_since(
                            now,
                            queue@[j].queued_at,
                        ) <= age
                },
                None => forall|j: int| 0 <= j < i ==> !(#[trigger] queue@[j]).play_safe,
            },
        decreases queue@.len() - i,
    {
        if queue[i].play_safe {
            let age: u64 = elapsed(now, queue[i].queued_at);
            let older = match longest {
                Some(longest) => age > longest,
                None => true,
            };
            if older {
                longest = Some(age);
            }
        }
        i += 1;
    }
    longest
}

proof fn lemma_filter_place(
    list: Seq<PendingCmd>,
    keep: spec_fn(PendingCmd) -> bool,
    i: int,
)
    requires
        0 <= i < list.len(),
        keep(list[i]),
    ensures
        ({
            let place = list.take(i).filter(keep).len() as int;
            place < list.filter(keep).len() && list.filter(keep)[place] == list[i]
        }),
    decreases list.len(),
{
    let head = list.drop_last();
    assert(list =~= head.push(list.last()));
    lemma_filter_push(head, list.last(), keep);
    if i < head.len() {
        assert(head.take(i) =~= list.take(i));
        lemma_filter_place(head, keep, i);
    } else {
        assert(list.take(i) =~= head);
    }
}

proof fn lemma_filter_members(list: Seq<PendingCmd>, keep: spec_fn(PendingCmd) -> bool)
    ensures
        forall|k: int|
            0 <= k < list.filter(keep).len() ==> list.contains(#[trigger] list.filter(keep)[k])
                && keep(list.filter(keep)[k]),
    decreases list.len(),
{
    reveal(Seq::filter);
    if list.len() > 0 {
        let head = list.drop_last();
        lemma_filter_members(head, keep);
        assert(list =~= head.push(list.last()));
        lemma_filter_push(head, list.last(), keep);
        assert forall|k: int| 0 <= k < list.filter(keep).len() implies list.contains(
            #[trigger] list.filter(keep)[k],
        ) && keep(list.filter(keep)[k]) by {
            if k < head.filter(keep).len() {
                assert(list.filter(keep)[k] == head.filter(keep)[k]);
                let i = choose|i: int| 0 <= i < head.len() && head[i] == list.filter(keep)[k];
                assert(list[i] == list.filter(keep)[k]);
            } else {
                assert(list[list.len() - 1] == list.filter(keep)[k]);
            }
        }
    }
}

/// Parting a queue loses no command and makes up none: those that may be sent during play and the
/// others, each in their order.
pub proof fn lemma_parts_make_up_the_queue(queue: Seq<PendingCmd>, i: int)
    ensures
        ({
            let safe = queue.filter(|c: PendingCmd| c.play_safe);
            let rest = queue.filter(|c: PendingCmd| !c.play_safe);
            let safe_before = queue.take(i).filter(|c: PendingCmd| c.play_safe).len() as int;
            let rest_before = queue.take(i).filter(|c: PendingCmd| !c.play_safe).len() as int;
            &&& safe.len() + rest.len() == queue.len()
            &&& 0 <= i <= queue.len() ==> safe_before + rest_before == i
            &&& 0 <= i < queue.len() && queue[i].play_safe ==> safe_before < safe.len()
                && safe[safe_before] == queue[i]
            &&& 0 <= i < queue.len() && !queue[i].play_safe ==> rest_before < rest.len()
                && rest[rest_before] == queue[i]
            &&& 0 <= i < safe.len() ==> safe[i].play_safe && queue.contains(safe[i])
            &&& 0 <= i < rest.len() ==> !rest[i].play_safe && queue.contains(rest[i])
        }),
{
    let fit = |c: PendingCmd| c.play_safe;
    let unfit = |c: PendingCmd| !c.play_safe;
    lemma_part_lengths(queue);
    if 0 <= i <= queue.len() {
        lemma_part_lengths(queue.take(i));
    }
    if 0 <= i < queue.len() {
        if queue[i].play_safe {
            lemma_filter_place(queue, fit, i);
        } else {
            lemma_filter_place(queue, unfit, i);
        }
    }
    lemma_filter_members(queue, fit);
    lemma_filter_members(queue, unfit);
}

proof fn lemma_part_lengths(queue: Seq<PendingCmd>)
    ensures
        queue.filter(|c: PendingCmd| c.play_safe).len() + queue.filter(
            |c: PendingCmd| !c.play_safe,
        ).len() == queue.len(),
    decreases queue.len(),
{
    reveal(Seq::filter);
    if queue.len() > 0 {
        let head = queue.drop_last();
        lemma_part_lengths(head);
        assert(queue =~= head.push(queue.last()));
        lemma_filter_push(head, queue.last(), |c: PendingCmd| c.play_safe);
        lemma_filter_push(head, queue.last(), |c: PendingCmd| !c.play_safe);
    }
}

/// Taking out the commands that may be sent during play gives out exactly those, in order, and
/// leaves exactly the others, in order.
pub proof fn lemma_safe_commands_are_taken_out(i: int)
    ensures
        forall|queue: &mut Vec<PendingCmd>, safe: Vec<PendingCmd>| #[trigger]
            call_ensures(split_play_safe, (queue,), safe) ==> {
                let before = queue@;
                let rest = final(queue)@;
                let earlier = before.take(i).filter(|c: PendingCmd| c.play_safe).len() as int;
                &&& safe@.len() + rest.len() == before.len()
                &&& 0 <= i < before.len() && before[i].play_safe ==> earlier < safe@.len()
                    && safe@[earlier] == before[i]
                &&& 0 <= i < before.len() && !before[i].play_safe ==> i - earlier < rest.len()
                    && rest[i - earlier] == before[i]
                &&& 0 <= i < safe@.len() ==> safe@[i].play_safe && before.contains(safe@[i])
                &&& 0 <= i < rest.len() ==> !rest[i].play_safe && before.contains(rest[i])
            },
{
    assert forall|queue: &mut Vec<PendingCmd>, safe: Vec<PendingCmd>| #[trigger]
        call_ensures(split_play_safe, (queue,), safe) implies {
        let before = queue@;
        let rest = final(queue)@;
        let earlier = before.take(i).filter(|c: PendingCmd| c.play_safe).len() as int;
        &&& safe@.len() + rest.len() == before.len()
        &&& 0 <= i < before.len() && before[i].play_safe ==> earlier < safe@.len()
            && safe@[earlier] == before[i]
        &&& 0 <= i < before.len() && !before[i].play_safe ==> i - earlier < rest.len() && rest[i
            - earlier] == before[i]
        &&& 0 <= i < safe@.len() ==> safe@[i].play_safe && before.contains(safe@[i])
        &&& 0 <= i < rest.len() ==> !rest[i].play_safe && before.contains(rest[i])
    } by {
        lemma_parts_make_up_the_queue(queue@, i);
    }
}

/// Of the commands that were not given up, those that need the panel reinitialised are given out
/// and the others stay; those that were given up are gone.
pub proof fn lemma_given_up_commands_are_dropped(flags: &Vec<bool>, command: PendingCmd)
    ensures
        forall|queue: &mut Vec<PendingCmd>, taken: Vec<PendingCmd>| #[trigger]
            call_ensures(split_unsafe, (queue, flags), taken) && flags@.len() == queue@.len() ==> {
                &&& taken@.contains(command) <==> !command.play_safe && exists|i: int|
                    0 <= i < queue@.len() && !flags@[i] && #[trigger] queue@[i] == command
                &&& final(queue)@.contains(command) <==> command.play_safe && exists|i: int|
                    0 <= i < queue@.len() && !flags@[i] && #[trigger] queue@[i] == command
            },
{
    assert forall|queue: Seq<PendingCmd>, play_safe: bool|
        flags@.len() == queue.len() implies (#[trigger] live(queue, flags@, play_safe)).contains(
        command,
    ) == (command.play_safe == play_safe && exists|i: int|
        0 <= i < queue.len() && !flags@[i] && #[trigger] queue[i] == command) by {
        lemma_only_live_commands_are_sent(queue, flags@, play_safe);
        if live(queue, flags@, play_safe).contains(command) {
            assert(is_live(queue, flags@, play_safe, command));
        } else {
            assert(!is_live(queue, flags@, play_safe, command));
        }
    }
}

/// The panel must be reinitialised exactly when a command waits that was not given up and may not
/// be sent during play.
pub proof fn lemma_waiting_commands_are_seen(
    queue: &Vec<PendingCmd>,
    flags: &Vec<bool>,
    key: &(Vec<u8>, u8),
    stops: bool,
    uploading: bool,
)
    requires
        call_ensures(unsafe_waiting, (queue, flags), stops),
        call_ensures(upload_waiting, (queue, flags, key), uploading),
        flags@.len() == queue@.len(),
    ensures
        stops <==> exists|i: int|
            0 <= i < queue@.len() && !(#[trigger] queue@[i]).play_safe && !flags@[i],
        uploading <==> exists|i: int|
            0 <= i < queue@.len() && !flags@[i] && (#[trigger] queue@[i]).ring_key is Some && ({
                let other = queue@[i].ring_key->0;
                other.0@ == key.0@ && other.1 == key.1
            }),
{
    if uploading {
        let i = choose|i: int|
            0 <= i < queue@.len() && !flags@[i] && key_of((#[trigger] queue@[i]).ring_key) == Some(
                (key.0@, key.1),
            );
        assert(queue@[i].ring_key is Some);
    } else if exists|i: int|
        0 <= i < queue@.len() && !flags@[i] && (#[trigger] queue@[i]).ring_key is Some && ({
            let other = queue@[i].ring_key->0;
            other.0@ == key.0@ && other.1 == key.1
        }) {
        let i = choose|i: int|
            0 <= i < queue@.len() && !flags@[i] && (#[trigger] queue@[i]).ring_key is Some && ({
                let other = queue@[i].ring_key->0;
                other.0@ == key.0@ && other.1 == key.1
            });
        assert(key_of(queue@[i].ring_key) == Some((key.0@, key.1)));
    }
}

/// The longest wait is the wait of one of the commands that may be sent during play, and no such
/// command has waited longer.
pub proof fn lemma_the_longest_wait_is_found(
    queue: &Vec<PendingCmd>,
    now: u64,
    age: Option<u64>,
    i: int,
)
    requires
        call_ensures(longest_wait, (queue, now), age),
        0 <= i < queue@.len(),
        queue@[i].play_safe,
    ensures
        age is Some,
        now - queue@[i].queued_at <= age->0,
        age->0 > 0 ==> exists|k: int|
            0 <= k < queue@.len() && (#[trigger] queue@[k]).play_safe && now - queue@[k].queued_at
                == age->0,
{
    assert(some_play_safe(queue@));
    let k = choose|k: int|
        0 <= k < queue@.len() && (#[trigger] queue@[k]).play_safe && time_since(
            now,
            queue@[k].queued_at,
        ) == age->0;
    assert(queue@[k].play_safe);
}

proof fn lemma_first_labelled(queue: Seq<PendingCmd>, label: Seq<char>, from: int, at: int)
    requires
        0 <= from <= at <= queue.len(),
        forall|i: int| from <= i < at ==> (#[trigger] queue[i]).label@ != label,
        at < queue.len() ==> queue[at].label@ == label,
    ensures
        labelled(queue, label, from) == if at < queue.len() {
            Some(at)
        } else {
            None
        },
    decreases at - from,
{
    if from < at {
        assert(queue[from].label@ != label);
        lemma_first_labelled(queue, label, from + 1, at);
    }
}

/// A queued command waits last and is the only one of its label; commands of other labels stay, in
/// their order. It is not queued when it was given up, or when it is a ring upload and a newer one
/// waits that was not given up. It has waited since it was queued, and, if it may be sent during
/// play, since the command that it replaces was.
pub proof fn lemma_commands_replace_their_label(
    command: PendingCmd,
    cancelled: bool,
    previous_cancelled: bool,
    at: int,
    i: int,
)
    ensures
        forall|queue: &mut Vec<PendingCmd>| #[trigger]
            call_ensures(enqueue, (queue, command, cancelled, previous_cancelled), ()) && 0 <= at
                <= queue@.len() && (forall|k: int|
                0 <= k < at ==> (#[trigger] queue@[k]).label@ != command.label@) && (at
                < queue@.len() ==> queue@[at].label@ == command.label@) ==> {
                let before = queue@;
                let after = final(queue)@;
                let replaces = at < before.len();
                let overtaken = replaces && command.ring_key is Some && !previous_cancelled
                    && before[at].queued_at > command.queued_at;
                let last = after.len() - 1;
                &&& cancelled || overtaken ==> after == before
                &&& !cancelled && !overtaken ==> {
                    &&& after.len() > 0
                    &&& after[last].label == command.label
                    &&& after[last].packet == command.packet
                    &&& after[last].reply_wait == command.reply_wait
                    &&& after[last].play_safe == command.play_safe
                    &&& after[last].ring_key == command.ring_key
                    &&& after[last].cancelled == command.cancelled
                    &&& after[last].queued_at == if command.play_safe && replaces {
                        before[at].queued_at
                    } else {
                        command.queued_at
                    }
                    &&& 0 <= i < last ==> after[i].label@ != command.label@ && before.contains(
                        after[i],
                    )
                    &&& 0 <= i < before.len() && before[i].label@ != command.label@ ==> {
                        let place = before.take(i).filter(
                            |c: PendingCmd| c.label@ != command.label@,
                        ).len() as int;
                        place < last && after[place] == before[i]
                    }
                }
            },
{
    let keep = other_label(command.label@);
    assert forall|before: Seq<PendingCmd>| {
        let kept = #[trigger] without_label(before, command.label@);
        &&& 0 <= i < before.len() && before[i].label@ != command.label@ ==> {
            let place = before.take(i).filter(
                |c: PendingCmd| c.label@ != command.label@,
            ).len() as int;
            place < kept.len() && kept[place] == before[i]
        }
        &&& 0 <= i < kept.len() ==> kept[i].label@ != command.label@ && before.contains(kept[i])
    } by {
        lemma_filter_members(before, keep);
        if 0 <= i < before.len() && before[i].label@ != command.label@ {
            lemma_filter_place(before, keep, i);
            assert(before.take(i).filter(keep) == before.take(i).filter(
                |c: PendingCmd| c.label@ != command.label@,
            ));
        }
    }
    assert forall|before: Seq<PendingCmd>|
        0 <= at <= before.len() && (forall|k: int|
            0 <= k < at ==> (#[trigger] before[k]).label@ != command.label@) && (at < before.len()
            ==> before[at].label@ == command.label@) implies #[trigger] labelled(
        before,
        command.label@,
        0,
    ) == if at < before.len() {
        Some(at)
    } else {
        None
    } by {
        lemma_first_labelled(before, command.label@, 0, at);
    }
}

/// Two payloads are the same exactly when both are missing, or both are there and agree in the
/// interval and in every byte.
pub proof fn lemma_payloads_agree_byte_by_byte(
    first: &Option<(Vec<u8>, u8)>,
    second: &Option<(Vec<u8>, u8)>,
    same: bool,
)
    requires
        call_ensures(same_key, (first, second), same),
    ensures
        first is None || second is None ==> (same <==> first is None && second is None),
        first is Some && second is Some ==> (same <==> {
            let a = first->0;
            let b = second->0;
            &&& a.1 == b.1
            &&& a.0@.len() == b.0@.len()
            &&& forall|k: int| 0 <= k < a.0@.len() ==> a.0@[k] == b.0@[k]
        }),
{
    if first is Some && second is Some {
        let a = first->0;
        let b = second->0;
        if a.0@.len() == b.0@.len() && (forall|k: int| 0 <= k < a.0@.len() ==> a.0@[k] == b.0@[k]) {
            assert(a.0@ =~= b.0@);
        }
    }
}

/// The command that a new one replaces is the first of its label.
pub proof fn lemma_the_first_of_a_label_is_found(
    queue: &Vec<PendingCmd>,
    label: &str,
    found: Option<usize>,
    at: int,
)
    requires
        call_ensures(find_labelled, (queue, label), found),
        0 <= at <= queue@.len(),
        forall|i: int| 0 <= i < at ==> (#[trigger] queue@[i]).label@ != label@,
        at < queue@.len() ==> queue@[at].label@ == label@,
    ensures
        found is Some <==> at < queue@.len(),
        found is Some ==> found->0 == at,
{
    lemma_first_labelled(queue@, label@, 0, at);
}

/// A command of a new label, which nobody can give up, is put last.
pub proof fn lemma_new_labels_are_added(
    queue: Seq<PendingCmd>,
    command: PendingCmd,
    after: Seq<PendingCmd>,
)
    requires
        is_queued(queue, command, after),
        command.cancelled is None,
        forall|i: int| 0 <= i < queue.len() ==> (#[trigger] queue[i]).label@ != command.label@,
    ensures
        after == queue.push(command),
{
    lemma_first_labelled(queue, command.label@, 0, queue.len() as int);
    crate::table::lemma_filter_keeps_all(queue, other_label(command.label@));
}

} // verus!
