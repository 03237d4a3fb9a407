//! The session: the threads that are held in memory, each under its
//! identifier, and the store that keeps them.

use std::collections::HashMap;

use vstd::prelude::*;
use vstd::std_specs::iter::IteratorSpec;
use vstd::string::StringExecFns;

use crate::db::DbStore;
use crate::db::Store;
use crate::db::StoreModel;
use crate::db::deleted;
use crate::db::loadable;
use crate::db::loaded;
use crate::db::saved;
use crate::error::Error;
use crate::llm::PromptSetting;
use crate::message::MessageModel;
use crate::message::blocks_of;
use crate::message::marked_text;
use crate::thread::ThreadModel;
use crate::thread::first_spoken;
use crate::thread::hex_text;
use crate::thread::spoken;
use crate::thread::valid;

pub use crate::message::CodeBlock;
pub use crate::message::Message;
pub use crate::message::Role;
pub use crate::thread::Summary;
pub use crate::thread::Thread;
pub use crate::thread::string_preview;

verus! {

/// Calls `uuid::Uuid::new_v4` and reads the identifier it makes as a number.
/// Nothing is promised of the result: it is drawn at random.
#[verifier::external_body]
fn fresh_id() -> u128 {
    uuid::Uuid::new_v4().as_u128()
}

/// The threads of a session and its store.
pub struct Session {
    threads: HashMap<u128, Thread>,
    db: Store,
}

/// What a session holds.
pub struct SessionModel {
    pub threads: Map<u128, ThreadModel>,
    pub store: StoreModel,
}

impl View for Session {
    type V = SessionModel;

    closed spec fn view(&self) -> SessionModel {
        SessionModel { threads: self.threads@.map_values(|t: Thread| t@), store: self.db@ }
    }
}

/// The `k`th identifier from `id` on, counted from 0. After the largest
/// identifier comes the smallest.
pub open spec fn probe(id: u128, k: nat) -> u128 {
    if id + k <= u128::MAX {
        (id + k) as u128
    } else {
        (id + k - u128::MAX - 1) as u128
    }
}

/// Whether `free` is the first identifier from `id` on that is none of
/// `used`.
pub open spec fn is_first_free(used: Set<u128>, id: u128, free: u128) -> bool {
    &&& !used.contains(free)
    &&& exists|k: nat|
        free == #[trigger] probe(id, k) && k <= used.len() && forall|j: nat|
            j < k ==> used.contains(#[trigger] probe(id, j))
}

/// The identifiers that are counted from one identifier on differ from one
/// another, as far as the count fits the machine.
pub proof fn lemma_probes_differ(id: u128, j: nat, k: nat)
    requires
        j < k <= usize::MAX,
    ensures
        probe(id, j) != probe(id, k),
{
}

/// The `k`th identifier from `id` on.
fn probe_at(id: u128, k: usize) -> (r: u128)
    ensures
        r == probe(id, k as nat),
{
    let step: u128 = k as u128;
    if step <= u128::MAX - id {
        id + step
    } else {
        step - (u128::MAX - id) - 1
    }
}

/// The thread that a new conversation begins with: one message of the
/// system with the persona's text, the persona and its model, and nothing
/// else.
pub open spec fn begun(prompt: PromptSetting, id: u128, now: int) -> ThreadModel {
    ThreadModel {
        messages: seq![
            MessageModel {
                role: Role::System,
                content: prompt.prompt@,
                timestamp: now,
                token_count: None,
                code_blocks: blocks_of(prompt.prompt@),
                non_code_content: marked_text(prompt.prompt@),
            },
        ],
        model: prompt.model,
        id,
        summaries: Seq::empty(),
        prompt: prompt@,
        incoming: None,
        title: None,
    }
}

/// Whether something was said in a thread.
pub open spec fn is_open(t: ThreadModel) -> bool {
    spoken(t.messages).len() > 0
}

/// When a thread in which something was said began.
pub open spec fn began(t: ThreadModel) -> int {
    first_spoken(t.messages)->0.timestamp
}

impl Session {
    /// Whether each thread is as it should be and is held under its own
    /// identifier.
    pub open spec fn wf(&self) -> bool {
        forall|id: u128| #[trigger]
            self@.threads.contains_key(id) ==> valid(self@.threads[id]) && self@.threads[id].id == id
    }

    /// The thread that the session holds under the identifier, with what
    /// its code blocks keep of their colours.
    pub closed spec fn held(&self, id: u128) -> Thread {
        self.threads@[id]
    }

    /// Whether the session holds a thread under the identifier and every
    /// code block of that thread was coloured.
    pub open spec fn coloured(&self, id: u128) -> bool {
        self@.threads.contains_key(id) && self.held(id).coloured()
    }

    /// A session without threads, over the given store.
    pub fn new(db: Store) -> (s: Session)
        ensures
            s.wf(),
            s@.threads == Map::<u128, ThreadModel>::empty(),
            s@.store == db@,
    {
        let s = Session { threads: HashMap::new(), db };
        assert(s@.threads =~= Map::<u128, ThreadModel>::empty());
        s
    }

    /// The store of the session.
    pub fn store(&self) -> (r: &Store)
        ensures
            r@ == self@.store,
    {
        &self.db
    }

    /// The thread with the given identifier.
    pub fn thread_by_id(&self, id: u128) -> (r: Option<&Thread>)
        ensures
            r is Some == self@.threads.contains_key(id),
            r matches Some(t) ==> t@ == self@.threads[id] && *t == self.held(id),
    {
        broadcast use vstd::std_specs::hash::group_hash_axioms;

        self.threads.get(&id)
    }

    /// Takes the thread with the given identifier out of the session.
    pub fn take_thread(&mut self, id: u128) -> (r: Option<Thread>)
        ensures
            r is Some == old(self)@.threads.contains_key(id),
            r matches Some(t) ==> t@ == old(self)@.threads[id],
            final(self)@.threads == old(self)@.threads.remove(id),
            final(self)@.store == old(self)@.store,
            old(self).wf() ==> final(self).wf() && (r matches Some(t) ==> t.wf() && t@.id == id),
            r matches Some(t) ==> t == old(self).held(id),
            forall|other: u128| other != id ==> #[trigger] final(self).held(other) == old(self).held(other),
    {
        broadcast use vstd::std_specs::hash::group_hash_axioms;

        let r = self.threads.remove(&id);
        assert(self@.threads =~= old(self)@.threads.remove(id));
        r
    }

    /// Puts a thread into the session, under its identifier and in place of
    /// any that was held under it.
    pub fn put_thread(&mut self, thread: Thread)
        ensures
            final(self)@.threads == old(self)@.threads.insert(thread@.id, thread@),
            final(self)@.store == old(self)@.store,
            old(self).wf() && thread.wf() ==> final(self).wf(),
            final(self).held(thread@.id) == thread,
            forall|other: u128|
                other != thread@.id ==> #[trigger] final(self).held(other) == old(self).held(other),
    {
        broadcast use vstd::std_specs::hash::group_hash_axioms;

        let id = thread.id();
        let ghost t = thread@;
        self.threads.insert(id, thread);
        assert(self@.threads =~= old(self)@.threads.insert(id, t));
    }

    /// Begins a conversation under the given identifier, at the given time.
    /// An identifier that is in use is refused, and nothing changes.
    pub fn new_thread_as(&mut self, prompt: &PromptSetting, id: u128, now: i64) -> (r: Result<
        u128,
        Error,
    >)
        requires
            old(self).wf(),
        ensures
            final(self).wf(),
            final(self)@.store == old(self)@.store,
            r is Ok == !old(self)@.threads.contains_key(id),
            r matches Ok(i) ==> i == id && final(self)@.threads == old(self)@.threads.insert(
                id,
                begun(*prompt, id, now as int),
            ),
            r matches Err(e) ==> final(self)@ == old(self)@ && (e matches Error::Other(t) && t@
                == "Thread ID was already present: "@ + hex_text(id as nat, 32)),
    {
        broadcast use vstd::std_specs::hash::group_hash_axioms;

        if self.threads.contains_key(&id) {
            let mut text = "Thread ID was already present: ".to_owned();
            let t = Thread::new(Vec::new(), prompt.model, id);
            text.append(t.str_id().as_str());
            return Err(Error::Other(text));
        }
        let mut messages: Vec<Message> = Vec::new();
        messages.push(Message::new(Role::System, prompt.prompt.as_str(), now));
        let ghost first = messages@[0]@;
        let mut thread = Thread::new(messages, prompt.model, id);
        thread.set_prompt(prompt.duplicate());
        proof {
            let given = seq![first];
            assert(crate::thread::message_views(seq![messages@[0]]) =~= given);
            crate::thread::lemma_in_sequence(given);
            assert(given.drop_last() =~= Seq::<MessageModel>::empty());
            assert(crate::thread::in_sequence(given) =~= given);
            assert(thread@.messages =~= begun(*prompt, id, now as int).messages);
            assert(thread@ == begun(*prompt, id, now as int));
        }
        self.put_thread(thread);
        Ok(id)
    }

    /// The first identifier from `id` on that no thread of the session is
    /// held under.
    pub fn free_id(&self, id: u128) -> (r: u128)
        ensures
            is_first_free(self@.threads.dom(), id, r),
    {
        broadcast use vstd::std_specs::hash::group_hash_axioms;

        let ghost dom = self.threads@.dom();
        assert(self@.threads.dom() =~= dom);
        let ghost mut tried: Set<u128> = Set::empty();
        let mut k: usize = 0;
        loop
            invariant
                dom == self.threads@.dom(),
                dom == self@.threads.dom(),
                dom.finite(),
                dom.len() == self.threads.len(),
                k <= dom.len(),
                tried.finite(),
                tried.len() == k,
                tried.subset_of(dom),
                forall|j: nat| j < k ==> tried.contains(#[trigger] probe(id, j)),
                forall|x: u128|
                    tried.contains(x) ==> exists|j: nat| j < k && x == #[trigger] probe(id, j),
            decreases dom.len() + 1 - k,
        {
            let candidate = probe_at(id, k);
            if !self.threads.contains_key(&candidate) {
                proof {
                    assert(candidate == probe(id, k as nat));
                    assert forall|j: nat| j < k implies dom.contains(#[trigger] probe(id, j)) by {
                        assert(tried.contains(probe(id, j)));
                    }
                }
                return candidate;
            }
            proof {
                if tried.contains(candidate) {
                    let j = choose|j: nat| j < k && candidate == #[trigger] probe(id, j);
                    lemma_probes_differ(id, j, k as nat);
                }
                let before = tried;
                tried = tried.insert(candidate);
                vstd::set_lib::lemma_len_subset(tried, dom);
                assert forall|x: u128| tried.contains(x) implies exists|j: nat|
                    j < k + 1 && x == #[trigger] probe(id, j) by {
                    if x == candidate {
                        assert(x == probe(id, k as nat));
                    } else {
                        let j = choose|j: nat| j < k && x == #[trigger] probe(id, j);
                        assert(j < k + 1 && x == probe(id, j));
                    }
                }
            }
            k += 1;
        }
    }

    /// Begins a conversation with the given persona. The thread is held
    /// under an identifier that is drawn at random or, should that one be
    /// in use, under the first after it that is free, so that a thread is
    /// begun whatever was drawn. The result is the identifier. The thread
    /// holds one message of the system with the persona's text and the
    /// time at which it was begun.
    pub fn new_thread(&mut self, prompt: &PromptSetting) -> (r: Result<u128, Error>)
        requires
            old(self).wf(),
        ensures
            final(self).wf(),
            final(self)@.store == old(self)@.store,
            r is Ok,
            r matches Ok(id) ==> !old(self)@.threads.contains_key(id) && exists|now: int|
                final(self)@.threads == old(self)@.threads.insert(id, begun(*prompt, id, now)),
    {
        let id = self.free_id(fresh_id());
        let now = crate::message::now_millis();
        self.new_thread_as(prompt, id, now)
    }

    /// Takes a thread out of the session and out of the store. Says whether
    /// the session held it; if it did not, nothing changes.
    pub fn delete_thread(&mut self, thread_id: u128) -> (r: Result<bool, Error>)
        requires
            old(self).wf(),
        ensures
            final(self).wf(),
            r == Ok::<bool, Error>(old(self)@.threads.contains_key(thread_id)),
            final(self)@.threads == old(self)@.threads.remove(thread_id),
            final(self)@.store == if old(self)@.threads.contains_key(thread_id) {
                deleted(old(self)@.store, thread_id)
            } else {
                old(self)@.store
            },
    {
        match self.take_thread(thread_id) {
            Some(thread) => {
                let _ = thread.drop_from_db(&mut self.db);
                Ok(true)
            },
            None => Ok(false),
        }
    }

    /// The identifiers of the threads of the session, each once.
    pub fn thread_ids(&self) -> (r: Vec<u128>)
        ensures
            r@.to_set() == self@.threads.dom(),
            r@.no_duplicates(),
    {
        let mut out: Vec<u128> = Vec::new();
        let keys = self.threads.keys();
        let ghost all: Seq<u128> = keys.remaining().unref();
        for k in it: keys
            invariant
                it.seq().unref() == all,
                all.to_set() == self.threads@.dom(),
                all.no_duplicates(),
                out@ == all.take(it.index() as int),
        {
            out.push(*k);
        }
        assert(all.take(all.len() as int) =~= all);
        assert(self@.threads.dom() =~= self.threads@.dom());
        out
    }
}

/// The store after the threads were saved in the given order.
pub open spec fn saved_all(s: StoreModel, threads: Map<u128, ThreadModel>, order: Seq<u128>) -> StoreModel
    decreases order.len(),
{
    if order.len() == 0 {
        s
    } else {
        saved(saved_all(s, threads, order.drop_last()), threads[order.last()])
    }
}

/// Whether the identifiers stand in their order, the smallest first, each
/// once.
pub open spec fn ascending(ids: Seq<u128>) -> bool {
    forall|a: int, b: int| 0 <= a < b < ids.len() ==> (#[trigger] ids[a]) < (#[trigger] ids[b])
}

/// Whether a thread holds a message.
pub open spec fn holds_messages(threads: Map<u128, ThreadModel>) -> spec_fn(u128) -> bool {
    |id: u128| threads[id].messages.len() > 0
}

/// Whether a thread that began at `t1` stands in the list before one that
/// began at `t2`: the one that began first stands first, and of two that
/// began at the same time the one with the smaller identifier.
pub open spec fn comes_first(t1: int, id1: u128, t2: int, id2: u128) -> bool {
    t1 < t2 || (t1 == t2 && id1 < id2)
}

impl Session {
    /// The threads in which something was said, each with its identifier,
    /// the one that began first at the front. Threads that began at the
    /// same time stand in the order of their identifiers.
    pub fn ordered_threads(&self) -> (r: Vec<(u128, &Thread)>)
        ensures
            forall|k: int|
                0 <= k < r@.len() ==> self@.threads.contains_key((#[trigger] r@[k]).0) && r@[k].1@
                    == self@.threads[r@[k].0] && is_open(r@[k].1@),
            forall|a: int, b: int|
                0 <= a < b < r@.len() ==> (#[trigger] r@[a]).0 != (#[trigger] r@[b]).0,
            forall|id: u128|
                self@.threads.contains_key(id) && is_open(#[trigger] self@.threads[id]) ==> exists|
                    k: int,
                |
                    0 <= k < r@.len() && (#[trigger] r@[k]).0 == id,
            forall|a: int, b: int|
                0 <= a < b < r@.len() ==> comes_first(
                    began((#[trigger] r@[a]).1@),
                    r@[a].0,
                    began((#[trigger] r@[b]).1@),
                    r@[b].0,
                ),
    {
        broadcast use vstd::std_specs::hash::group_hash_axioms;

        let ids = self.thread_ids();
        let ghost threads = self@.threads;
        let mut sorted: Vec<(i64, u128)> = Vec::new();
        let ghost mut source: Seq<int> = Seq::empty();
        let mut i: usize = 0;
        while i < ids.len()
            invariant
                i <= ids.len(),
                threads == self@.threads,
                ids@.no_duplicates(),
                source.len() == sorted@.len(),
                source.no_duplicates(),
                forall|k: int|
                    0 <= k < sorted@.len() ==> 0 <= (#[trigger] source[k]) < i && ids@[source[k]]
                        == sorted@[k].1,
                forall|k: int|
                    0 <= k < sorted@.len() ==> threads.contains_key((#[trigger] sorted@[k]).1)
                        && is_open(threads[sorted@[k].1]) && sorted@[k].0 == began(
                        threads[sorted@[k].1],
                    ),
                forall|a: int, b: int|
                    0 <= a < b < sorted@.len() ==> comes_first(
                        (#[trigger] sorted@[a]).0 as int,
                        sorted@[a].1,
                        (#[trigger] sorted@[b]).0 as int,
                        sorted@[b].1,
                    ),
                forall|j: int|
                    0 <= j < i && threads.contains_key(#[trigger] ids@[j]) && is_open(
                        threads[ids@[j]],
                    ) ==> exists|k: int| 0 <= k < sorted@.len() && (#[trigger] sorted@[k]).1 == ids@[j],
            decreases ids.len() - i,
        {
            let id = ids[i];
            let mut added = false;
            let ghost before = sorted@;
            let ghost at: int = 0;
            match self.threads.get(&id) {
                Some(t) => {
                    assert(t@ == threads[id]);
                    match t.init_time() {
                        Some(time) => {
                            let mut pos: usize = sorted.len();
                            assert forall|k: int| 0 <= k < sorted@.len() implies (
                            #[trigger] sorted@[k]).1 != id by {
                                assert(ids@[source[k]] == sorted@[k].1);
                            }
                            while pos > 0 && (sorted[pos - 1].0 > time || (sorted[pos - 1].0 == time
                                && sorted[pos - 1].1 > id))
                                invariant
                                    pos <= sorted.len(),
                                    forall|k: int|
                                        0 <= k < sorted@.len() ==> (#[trigger] sorted@[k]).1 != id,
                                    forall|k: int|
                                        pos <= k < sorted@.len() ==> comes_first(
                                            time as int,
                                            id,
                                            (#[trigger] sorted@[k]).0 as int,
                                            sorted@[k].1,
                                        ),
                                decreases pos,
                            {
                                pos -= 1;
                            }
                            proof {
                                if pos > 0 {
                                    assert(sorted@[pos - 1].1 != id);
                                }
                            }
                            sorted.insert(pos, (time, id));
                            proof {
                                at = pos as int;
                                source = source.insert(pos as int, i as int);
                            }
                            added = true;
                        },
                        None => {},
                    }
                },
                None => {},
            }
            proof {
                if added {
                    assert forall|j: int|
                        0 <= j < i + 1 && threads.contains_key(#[trigger] ids@[j]) && is_open(
                            threads[ids@[j]],
                        ) implies exists|k: int|
                        0 <= k < sorted@.len() && (#[trigger] sorted@[k]).1 == ids@[j] by {
                        if j < i {
                            let k = choose|k: int|
                                0 <= k < before.len() && (#[trigger] before[k]).1 == ids@[j];
                            if k < at {
                                assert(sorted@[k].1 == ids@[j]);
                            } else {
                                assert(sorted@[k + 1].1 == ids@[j]);
                            }
                        } else {
                            assert(sorted@[at].1 == ids@[j]);
                        }
                    }
                } else {
                    assert forall|j: int|
                        0 <= j < i + 1 && threads.contains_key(#[trigger] ids@[j]) && is_open(
                            threads[ids@[j]],
                        ) implies exists|k: int|
                        0 <= k < sorted@.len() && (#[trigger] sorted@[k]).1 == ids@[j] by {
                        if j < i {
                            let k = choose|k: int|
                                0 <= k < before.len() && (#[trigger] before[k]).1 == ids@[j];
                            assert(sorted@[k].1 == ids@[j]);
                        }
                    }
                }
            }
            i += 1;
        }
        let mut out: Vec<(u128, &Thread)> = Vec::new();
        let mut k: usize = 0;
        while k < sorted.len()
            invariant
                k <= sorted.len(),
                source.len() == sorted@.len(),
                threads == self@.threads,
                out@.len() == k,
                forall|n: int|
                    0 <= n < sorted@.len() ==> threads.contains_key((#[trigger] sorted@[n]).1),
                forall|n: int|
                    0 <= n < k ==> (#[trigger] out@[n]).0 == sorted@[n].1 && out@[n].1@
                        == threads[sorted@[n].1],
            decreases sorted.len() - k,
        {
            let id = sorted[k].1;
            assert(threads.contains_key(sorted@[k as int].1));
            match self.threads.get(&id) {
                Some(t) => {
                    out.push((id, t));
                },
                None => {},
            }
            k += 1;
        }
        proof {
            assert forall|a: int, b: int| 0 <= a < b < out@.len() implies (#[trigger] out@[a]).0 != (
            #[trigger] out@[b]).0 by {
                assert(ids@[source[a]] == sorted@[a].1);
                assert(ids@[source[b]] == sorted@[b].1);
                assert(source[a] != source[b]);
            }
            assert forall|id: u128|
                self@.threads.contains_key(id) && is_open(
                    #[trigger] self@.threads[id],
                ) implies exists|n: int| 0 <= n < out@.len() && (#[trigger] out@[n]).0 == id by {
                assert(ids@.to_set().contains(id));
                assert(ids@.contains(id));
                let j = choose|j: int| 0 <= j < ids@.len() && ids@[j] == id;
                assert(threads.contains_key(ids@[j]));
                let n = choose|n: int| 0 <= n < sorted@.len() && (#[trigger] sorted@[n]).1 == ids@[j];
                assert(out@[n].0 == id);
            }
            assert forall|a: int, b: int| 0 <= a < b < out@.len() implies comes_first(
                began((#[trigger] out@[a]).1@),
                out@[a].0,
                began((#[trigger] out@[b]).1@),
                out@[b].0,
            ) by {
                assert(comes_first(
                    sorted@[a].0 as int,
                    sorted@[a].1,
                    sorted@[b].0 as int,
                    sorted@[b].1,
                ));
            }
        }
        out
    }

    /// How many threads of the session hold a message.
    pub fn nonempty_count(&self) -> (n: usize)
        ensures
            n == self@.threads.dom().filter(holds_messages(self@.threads)).len(),
    {
        broadcast use vstd::std_specs::hash::group_hash_axioms;

        let ids = self.thread_ids();
        let ghost threads = self@.threads;
        let ghost mut counted: Seq<u128> = Seq::empty();
        let mut count: usize = 0;
        let mut i: usize = 0;
        while i < ids.len()
            invariant
                i <= ids.len(),
                threads == self@.threads,
                ids@.no_duplicates(),
                ids@.to_set() == threads.dom(),
                count == counted.len(),
                counted.len() <= i,
                counted.no_duplicates(),
                forall|x: u128|
                    counted.contains(x) <==> (exists|j: int| 0 <= j < i && ids@[j] == x)
                        && holds_messages(threads)(x),
            decreases ids.len() - i,
        {
            let id = ids[i];
            let ghost before = counted;
            let mut hit = false;
            match self.threads.get(&id) {
                Some(t) => {
                    if t.len() > 0 {
                        hit = true;
                    }
                },
                None => {
                    assert(ids@.to_set().contains(id));
                },
            }
            if hit {
                proof {
                    assert(!before.contains(id)) by {
                        if before.contains(id) {
                            let j = choose|j: int| 0 <= j < i && ids@[j] == id;
                            assert(ids@[j] == ids@[i as int]);
                        }
                    }
                    counted = before.push(id);
                    assert(counted.no_duplicates());
                }
                count += 1;
            }
            proof {
                assert forall|x: u128|
                    counted.contains(x) <==> (exists|j: int| 0 <= j < i + 1 && ids@[j] == x)
                        && holds_messages(threads)(x) by {
                    if counted.contains(x) {
                        let n = choose|n: int| 0 <= n < counted.len() && counted[n] == x;
                        if n < before.len() {
                            assert(before.contains(x));
                            let j = choose|j: int| 0 <= j < i && ids@[j] == x;
                            assert(0 <= j < i + 1 && ids@[j] == x);
                        } else {
                            assert(ids@[i as int] == x);
                        }
                    }
                    if (exists|j: int| 0 <= j < i + 1 && ids@[j] == x) && holds_messages(threads)(x) {
                        let j = choose|j: int| 0 <= j < i + 1 && ids@[j] == x;
                        if j < i {
                            assert(before.contains(x));
                            let n = choose|n: int| 0 <= n < before.len() && before[n] == x;
                            assert(counted[n] == x);
                        } else {
                            assert(counted[counted.len() - 1] == x);
                        }
                    }
                }
            }
            i += 1;
        }
        proof {
            let wanted = threads.dom().filter(holds_messages(threads));
            assert(counted.to_set() =~= wanted) by {
                assert forall|x: u128| counted.to_set().contains(x) <==> wanted.contains(x) by {
                    if counted.contains(x) {
                        let j = choose|j: int| 0 <= j < ids@.len() && ids@[j] == x;
                        assert(ids@.contains(x));
                        assert(ids@.to_set().contains(x));
                    }
                    if wanted.contains(x) {
                        assert(ids@.to_set().contains(x));
                        assert(ids@.contains(x));
                    }
                }
            }
            counted.unique_seq_to_set();
        }
        count
    }

    /// The identifiers of the threads of the session, the smallest first.
    pub fn sorted_ids(&self) -> (r: Vec<u128>)
        ensures
            r@.to_set() == self@.threads.dom(),
            ascending(r@),
    {
        let ids = self.thread_ids();
        let mut out: Vec<u128> = Vec::new();
        let mut i: usize = 0;
        while i < ids.len()
            invariant
                i <= ids.len(),
                ids@.no_duplicates(),
                ascending(out@),
                forall|x: u128| out@.contains(x) <==> exists|j: int| 0 <= j < i && ids@[j] == x,
            decreases ids.len() - i,
        {
            let id = ids[i];
            let ghost before = out@;
            assert(!before.contains(id)) by {
                if before.contains(id) {
                    let j = choose|j: int| 0 <= j < i && ids@[j] == id;
                    assert(ids@[j] == ids@[i as int]);
                }
            }
            let mut pos: usize = out.len();
            while pos > 0 && out[pos - 1] > id
                invariant
                    pos <= out.len(),
                    forall|k: int| pos <= k < out@.len() ==> (#[trigger] out@[k]) > id,
                decreases pos,
            {
                pos -= 1;
            }
            proof {
                if pos > 0 {
                    assert(before.contains(before[pos - 1]));
                }
            }
            out.insert(pos, id);
            proof {
                assert forall|x: u128|
                    out@.contains(x) <==> exists|j: int| 0 <= j < i + 1 && ids@[j] == x by {
                    if out@.contains(x) {
                        let n = choose|n: int| 0 <= n < out@.len() && out@[n] == x;
                        if n < pos {
                            assert(before[n] == x);
                            assert(before.contains(x));
                            let j = choose|j: int| 0 <= j < i && ids@[j] == x;
                            assert(0 <= j < i + 1 && ids@[j] == x);
                        } else if n > pos {
                            assert(before[n - 1] == x);
                            assert(before.contains(x));
                            let j = choose|j: int| 0 <= j < i && ids@[j] == x;
                            assert(0 <= j < i + 1 && ids@[j] == x);
                        } else {
                            assert(ids@[i as int] == x);
                        }
                    }
                    if exists|j: int| 0 <= j < i + 1 && ids@[j] == x {
                        let j = choose|j: int| 0 <= j < i + 1 && ids@[j] == x;
                        if j < i {
                            assert(before.contains(x));
                            let n = choose|n: int| 0 <= n < before.len() && before[n] == x;
                            if n < pos {
                                assert(out@[n] == x);
                            } else {
                                assert(out@[n + 1] == x);
                            }
                        } else {
                            assert(out@[pos as int] == x);
                        }
                    }
                }
            }
            i += 1;
        }
        proof {
            assert(out@.to_set() =~= ids@.to_set()) by {
                assert forall|x: u128| out@.to_set().contains(x) <==> ids@.to_set().contains(x) by {
                    if out@.contains(x) {
                        let j = choose|j: int| 0 <= j < ids@.len() && ids@[j] == x;
                        assert(ids@.contains(x));
                    }
                    if ids@.contains(x) {
                        let j = choose|j: int| 0 <= j < ids@.len() && ids@[j] == x;
                        assert(0 <= j < ids@.len() && ids@[j] == x);
                    }
                }
            }
        }
        out
    }

    /// Saves every thread of the session to its store, one after the other,
    /// in the order of their identifiers.
    pub fn save_to_db(&mut self) -> (r: Result<(), Error>)
        ensures
            r is Ok,
            final(self)@.threads == old(self)@.threads,
            exists|order: Seq<u128>|
                ascending(order) && order.to_set() == old(self)@.threads.dom()
                    && final(self)@.store == saved_all(
                    old(self)@.store,
                    old(self)@.threads,
                    order,
                ),
    {
        broadcast use vstd::std_specs::hash::group_hash_axioms;

        let ids = self.sorted_ids();
        let ghost threads = self@.threads;
        let ghost first = self@.store;
        let mut i: usize = 0;
        assert(ids@.take(0) == Seq::<u128>::empty());
        while i < ids.len()
            invariant
                i <= ids.len(),
                threads == self@.threads,
                self.threads == old(self).threads,
                ids@.to_set() == threads.dom(),
                self@.store == saved_all(first, threads, ids@.take(i as int)),
            decreases ids.len() - i,
        {
            let id = ids[i];
            proof {
                let after = ids@.take(i + 1);
                assert(after.drop_last() == ids@.take(i as int));
                assert(after.last() == id);
                assert(ids@.to_set().contains(id));
            }
            match self.threads.get(&id) {
                Some(t) => {
                    let _ = t.to_db(&mut self.db);
                },
                None => {},
            }
            i += 1;
        }
        assert(ids@.take(ids.len() as int) == ids@);
        Ok(())
    }

    /// Reads every thread of the store into the session, in place of the
    /// threads that it held. If one of them cannot be read, nothing changes.
    pub fn load_threads(&mut self) -> (r: Result<(), Error>)
        ensures
            final(self)@.store == old(self)@.store,
            r is Ok == (forall|i: int|
                0 <= i < old(self)@.store.threads.len() ==> loadable(
                    old(self)@.store,
                    (#[trigger] old(self)@.store.threads[i]).0,
                )),
            r is Ok ==> final(self).wf() && (forall|id: u128|
                final(self)@.threads.contains_key(id) <==> crate::db::has_key(
                    old(self)@.store.threads,
                    id,
                )) && (forall|id: u128| #[trigger]
                final(self)@.threads.contains_key(id) ==> final(self)@.threads[id] == loaded(
                    old(self)@.store,
                    id,
                )),
            r matches Err(e) ==> e is DbRetrievalError && final(self)@ == old(self)@,
    {
        broadcast use vstd::std_specs::hash::group_hash_axioms;

        let loaded_threads = match Thread::get_all(&self.db) {
            Ok(v) => v,
            Err(e) => {
                return Err(e);
            },
        };
        let ghost store = self@.store;
        let mut map: HashMap<u128, Thread> = HashMap::new();
        let mut rest = loaded_threads;
        let ghost total = rest@.len();
        while rest.len() > 0
            invariant
                rest@.len() <= total,
                total == store.threads.len(),
                forall|i: int|
                    0 <= i < rest@.len() ==> (#[trigger] rest@[i]).wf() && rest@[i]@ == loaded(
                        store,
                        store.threads[i].0,
                    ),
                forall|id: u128|
                    map@.contains_key(id) <==> exists|i: int|
                        rest@.len() <= i < total && (#[trigger] store.threads[i]).0 == id,
                forall|id: u128| #[trigger]
                    map@.contains_key(id) ==> map@[id].wf() && map@[id]@ == loaded(store, id),
            decreases rest@.len(),
        {
            let ghost n = rest@.len() - 1;
            let ghost before = map@;
            let t = rest.pop().unwrap();
            let id = t.id();
            assert(id == store.threads[n].0);
            map.insert(id, t);
            proof {
                assert forall|x: u128|
                    map@.contains_key(x) <==> exists|i: int|
                        n <= i < total && (#[trigger] store.threads[i]).0 == x by {
                    if map@.contains_key(x) && x != id {
                        assert(before.contains_key(x));
                        let i = choose|i: int| n + 1 <= i < total && (#[trigger] store.threads[i]).0 == x;
                        assert(n <= i < total && store.threads[i].0 == x);
                    }
                    if exists|i: int| n <= i < total && (#[trigger] store.threads[i]).0 == x {
                        let i = choose|i: int| n <= i < total && (#[trigger] store.threads[i]).0 == x;
                        if i > n {
                            assert(n + 1 <= i < total && store.threads[i].0 == x);
                            assert(before.contains_key(x));
                        }
                    }
                }
            }
        }
        self.threads = map;
        proof {
            assert forall|id: u128|
                self@.threads.contains_key(id) <==> crate::db::has_key(store.threads, id) by {
                if self@.threads.contains_key(id) {
                    let i = choose|i: int| 0 <= i < total && (#[trigger] store.threads[i]).0 == id;
                    assert(store.threads[i].0 == id);
                }
                if crate::db::has_key(store.threads, id) {
                    let i = choose|i: int|
                        0 <= i < store.threads.len() && (#[trigger] store.threads[i]).0 == id;
                    assert(0 <= i < total && store.threads[i].0 == id);
                }
            }
        }
        Ok(())
    }
}

} // verus!
