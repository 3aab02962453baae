//! Per-channel message ledger: a timestamp-ordered, id-deduplicated buffer
//! that merges paginated history loads with live-streamed inserts.

use vstd::prelude::*;
use crate::crypto::{parse_rfc3339_ms, rfc3339_epoch_ms};
use crate::models::{Attachment, BaseMessage, MessageType, UserRef};
use crate::text::{chars_to_string, find_seq, push_all, seq_starts_with, starts_with, spec_find_seq, str_to_chars, subvec};

verus! {

/// The client's normalized view of one protocol message, immutable after
/// creation. `created_at` is a millisecond timestamp.
#[derive(Clone, Debug, PartialEq)]
pub struct StoredMessage {
    pub id: String,
    pub user_id: String,
    pub title: Option<String>,
    pub content: String,
    pub message_type: MessageType,
    pub created_at: i64,
    pub parent_id: Option<String>,
    pub parent_message_type: Option<MessageType>,
    pub attachments: Vec<Attachment>,
}

/// Is `s` sorted ascending by `created_at`?
pub open spec fn sorted_by_created_at(s: Seq<StoredMessage>) -> bool {
    forall|i: int, j: int| 0 <= i < j < s.len() ==> s[i].created_at <= s[j].created_at
}

/// Does `s` hold a message whose id reads `id`?
pub open spec fn contains_id(s: Seq<StoredMessage>, id: Seq<char>) -> bool {
    exists|i: int| 0 <= i < s.len() && s[i].id@ == id
}

/// `post` is `pre` with `msg` inserted at some position.
pub open spec fn inserted(pre: Seq<StoredMessage>, post: Seq<StoredMessage>, msg: StoredMessage) -> bool {
    exists|p: int| 0 <= p <= pre.len() && post == #[trigger] pre.insert(p, msg)
}

/// The number of leading messages at or below timestamp `t`; for a
/// sorted sequence this is the upper-bound insertion point, after every
/// message with an equal timestamp.
pub open spec fn spec_upper_bound(s: Seq<StoredMessage>, t: i64) -> int
    decreases s.len(),
{
    if s.len() == 0 {
        0
    } else if s.first().created_at <= t {
        1 + spec_upper_bound(s.skip(1), t)
    } else {
        0
    }
}

/// One stable insertion: `m` goes after every message at or below its
/// own timestamp.
pub open spec fn spec_insert_sorted(s: Seq<StoredMessage>, m: StoredMessage) -> Seq<StoredMessage> {
    s.insert(spec_upper_bound(s, m.created_at), m)
}

/// The stable ascending sort of a message sequence: messages keep their
/// argument order wherever timestamps are equal.
pub open spec fn spec_stable_sorted(s: Seq<StoredMessage>) -> Seq<StoredMessage>
    decreases s.len(),
{
    if s.len() == 0 {
        Seq::<StoredMessage>::empty()
    } else {
        spec_insert_sorted(spec_stable_sorted(s.drop_last()), s.last())
    }
}

/// A partition point of a sorted sequence — everything before it at or
/// below `t`, everything after strictly above — is its upper bound.
proof fn lemma_upper_bound_partition(s: Seq<StoredMessage>, t: i64, p: int)
    requires
        0 <= p <= s.len(),
        forall|j: int| 0 <= j < p ==> s[j].created_at <= t,
        forall|j: int| p <= j < s.len() ==> s[j].created_at > t,
    ensures
        spec_upper_bound(s, t) == p,
    decreases s.len(),
{
    if s.len() == 0 {
    } else if p == 0 {
        assert(s.first().created_at > t);
    } else {
        assert(s.first().created_at <= t);
        assert forall|j: int| 0 <= j < p - 1 implies s.skip(1)[j].created_at <= t by {
            assert(s.skip(1)[j] == s[j + 1]);
        }
        assert forall|j: int| p - 1 <= j < s.skip(1).len() implies s.skip(1)[j].created_at > t by {
            assert(s.skip(1)[j] == s[j + 1]);
        }
        lemma_upper_bound_partition(s.skip(1), t, p - 1);
    }
}

/// The ordered message buffer of one channel.
#[derive(Debug)]
pub struct ChannelMessages {
    pub messages: Vec<StoredMessage>,
    pub is_loaded: bool,
}

impl ChannelMessages {
    /// The buffer's invariant: always sorted ascending by `created_at`.
    pub open spec fn wf(self) -> bool {
        sorted_by_created_at(self.messages@)
    }

    pub fn new() -> (r: ChannelMessages)
        ensures
            r.wf(),
            r.messages@.len() == 0,
            r.is_loaded == false,
    {
        ChannelMessages { messages: Vec::new(), is_loaded: false }
    }

    /// Is a message with this id already buffered?
    fn has_id(&self, id: &String) -> (r: bool)
        ensures
            r == contains_id(self.messages@, id@),
    {
        let mut i: usize = 0;
        while i < self.messages.len()
            invariant
                i <= self.messages@.len(),
                forall|j: int| 0 <= j < i ==> self.messages@[j].id@ != id@,
            decreases self.messages@.len() - i,
        {
            if self.messages[i].id == *id {
                return true;
            }
            i = i + 1;
        }
        false
    }

    /// The upper-bound partition point for timestamp `t`: everything
    /// before it is at or below `t`, everything from it on strictly above.
    fn insert_pos(&self, t: i64) -> (p: usize)
        requires
            self.wf(),
        ensures
            p <= self.messages@.len(),
            forall|j: int| 0 <= j < p ==> self.messages@[j].created_at <= t,
            forall|j: int| p <= j < self.messages@.len() ==> self.messages@[j].created_at > t,
    {
        let mut lo: usize = 0;
        let mut hi: usize = self.messages.len();
        while lo < hi
            invariant
                self.wf(),
                lo <= hi <= self.messages@.len(),
                forall|j: int| 0 <= j < lo ==> self.messages@[j].created_at <= t,
                forall|j: int| hi <= j < self.messages@.len() ==> self.messages@[j].created_at > t,
            decreases hi - lo,
        {
            let mid = lo + (hi - lo) / 2;
            if self.messages[mid].created_at <= t {
                lo = mid + 1;
            } else {
                hi = mid;
            }
        }
        lo
    }

    /// Inserts `msg` in timestamp order unless a message with the same id is
    /// already present, in which case the buffer is left untouched.
    pub fn add_message(&mut self, msg: StoredMessage) -> (added: bool)
        requires
            old(self).wf(),
        ensures
            final(self).wf(),
            final(self).is_loaded == old(self).is_loaded,
            contains_id(old(self).messages@, msg.id@) ==> {
                &&& !added
                &&& final(self).messages@ == old(self).messages@
            },
            !contains_id(old(self).messages@, msg.id@) ==> {
                &&& added
                &&& inserted(old(self).messages@, final(self).messages@, msg)
            },
    {
        if self.has_id(&msg.id) {
            return false;
        }
        let pos = self.insert_pos(msg.created_at);
        let ghost old_seq = self.messages@;
        self.messages.insert(pos, msg);
        proof {
            assert(self.messages@ == old_seq.insert(pos as int, msg));
            assert forall|i: int, j: int| 0 <= i < j < self.messages@.len()
                implies self.messages@[i].created_at <= self.messages@[j].created_at by {
                if i < pos && j == pos {
                } else if i == pos && j > pos {
                } else if i < pos && j > pos {
                }
            }
        }
        true
    }

    /// Replaces the buffer wholesale with `messages`, stable-sorted
    /// ascending by `created_at` (messages with equal timestamps keep
    /// their argument order), and marks the channel loaded. The buffer's
    /// id-uniqueness is the caller's to supply here: a history page is
    /// already deduplicated by the provider.
    pub fn set_history(&mut self, messages: Vec<StoredMessage>)
        ensures
            final(self).wf(),
            final(self).is_loaded == true,
            final(self).messages@ == spec_stable_sorted(messages@),
            final(self).messages@.to_multiset() == messages@.to_multiset(),
    {
        let mut sorted = ChannelMessages { messages: Vec::new(), is_loaded: true };
        let ghost input = messages@;
        let ghost mut k: int = 0;
        proof {
            broadcast use vstd::multiset::group_multiset_axioms;
            let e = Seq::<StoredMessage>::empty();
            e.to_multiset_ensures();
            vstd::multiset::lemma_multiset_empty_len(e.to_multiset());
            assert(e.to_multiset().add(input.to_multiset()) =~= input.to_multiset());
            assert(input.subrange(0, 0) =~= Seq::<StoredMessage>::empty());
            assert(input.subrange(0, input.len() as int) =~= input);
        }
        let mut rest = messages;
        while rest.len() > 0
            invariant
                sorted.wf(),
                sorted.is_loaded == true,
                0 <= k <= input.len(),
                rest@ == input.subrange(k, input.len() as int),
                sorted.messages@ == spec_stable_sorted(input.subrange(0, k)),
                sorted.messages@.to_multiset().add(rest@.to_multiset()) == input.to_multiset(),
            decreases rest@.len(),
        {
            let ghost pre_rest = rest@;
            let ghost pre_sorted = sorted.messages@;
            let msg = rest.remove(0);
            let pos = sorted.insert_pos(msg.created_at);
            let ghost old_seq = sorted.messages@;
            sorted.messages.insert(pos, msg);
            proof {
                broadcast use vstd::multiset::group_multiset_axioms;
                pre_rest.to_multiset_ensures();
                assert(pre_rest.remove(0).to_multiset() =~= pre_rest.to_multiset().remove(pre_rest[0]));
                assert(pre_rest.contains(msg));
                lemma_insert_to_multiset(old_seq, pos as int, msg);
                assert(sorted.messages@.to_multiset().add(rest@.to_multiset())
                    =~= input.to_multiset());
                assert forall|i2: int, j2: int| 0 <= i2 < j2 < sorted.messages@.len()
                    implies sorted.messages@[i2].created_at <= sorted.messages@[j2].created_at by {
                }
                // the exec insertion point is the upper bound, so this
                // step is exactly one stable insertion
                assert(msg == input[k]);
                lemma_upper_bound_partition(old_seq, msg.created_at, pos as int);
                assert(input.subrange(0, k + 1).drop_last() =~= input.subrange(0, k));
                assert(input.subrange(0, k + 1).last() == input[k]);
                assert(sorted.messages@ == spec_stable_sorted(input.subrange(0, k + 1)));
                assert(rest@ =~= input.subrange(k + 1, input.len() as int));
                k = k + 1;
            }
        }
        proof {
            broadcast use vstd::multiset::group_multiset_axioms;
            assert(rest@ =~= Seq::<StoredMessage>::empty());
            rest@.to_multiset_ensures();
            vstd::multiset::lemma_multiset_empty_len(rest@.to_multiset());
            assert(sorted.messages@.to_multiset().add(rest@.to_multiset())
                =~= sorted.messages@.to_multiset());
            assert(k == input.len());
            assert(input.subrange(0, input.len() as int) =~= input);
        }
        self.messages = sorted.messages;
        self.is_loaded = true;
    }
}

/// Does `s` hold an entry keyed `key`?
pub open spec fn store_contains(s: Seq<(String, ChannelMessages)>, key: Seq<char>) -> bool {
    exists|i: int| 0 <= i < s.len() && s[i].0@ == key
}

/// The index of the entry keyed `key` in `s`.
pub open spec fn store_index_of(s: Seq<(String, ChannelMessages)>, key: Seq<char>) -> int {
    choose|i: int| 0 <= i < s.len() && s[i].0@ == key
}

/// The buffer stored under `key` in `s`.
pub open spec fn store_value(s: Seq<(String, ChannelMessages)>, key: Seq<char>) -> ChannelMessages {
    s[store_index_of(s, key)].1
}

/// `s1` and `s2` agree on every channel other than `key`.
pub open spec fn store_same_except(
    s1: Seq<(String, ChannelMessages)>,
    s2: Seq<(String, ChannelMessages)>,
    key: Seq<char>,
) -> bool {
    forall|k: Seq<char>|
        #![trigger store_contains(s1, k)]
        #![trigger store_contains(s2, k)]
        k != key ==> {
            &&& store_contains(s1, k) == store_contains(s2, k)
            &&& (store_contains(s1, k) ==> store_value(s1, k) == store_value(s2, k))
        }
}

/// One message buffer per channel, keyed by channel id.
pub struct MessagesStore {
    pub channels: Vec<(String, ChannelMessages)>,
}

impl MessagesStore {
    /// Channel keys are unique and every buffer is well formed.
    pub open spec fn wf(self) -> bool {
        &&& forall|i: int, j: int|
            0 <= i < j < self.channels@.len() ==> self.channels@[i].0@ != self.channels@[j].0@
        &&& forall|i: int| 0 <= i < self.channels@.len() ==> (#[trigger] self.channels@[i].1).wf()
    }

    /// Does the store track this channel?
    pub open spec fn spec_contains(self, key: Seq<char>) -> bool {
        store_contains(self.channels@, key)
    }

    /// The buffer tracked for `key`.
    pub open spec fn spec_channel(self, key: Seq<char>) -> ChannelMessages {
        store_value(self.channels@, key)
    }

    /// The messages already buffered for `key`: empty when the channel is
    /// not yet tracked.
    pub open spec fn spec_pre_messages(self, key: Seq<char>) -> Seq<StoredMessage> {
        if self.spec_contains(key) {
            self.spec_channel(key).messages@
        } else {
            Seq::<StoredMessage>::empty()
        }
    }

    pub fn new() -> (r: MessagesStore)
        ensures
            r.wf(),
            r.channels@.len() == 0,
            forall|k: Seq<char>| !r.spec_contains(k),
    {
        MessagesStore { channels: Vec::new() }
    }

    fn index_of(&self, key: &String) -> (r: Option<usize>)
        requires
            self.wf(),
        ensures
            match r {
                Some(i) => i < self.channels@.len() && self.channels@[i as int].0@ == key@
                    && i == store_index_of(self.channels@, key@),
                None => !self.spec_contains(key@),
            },
    {
        let mut i: usize = 0;
        while i < self.channels.len()
            invariant
                self.wf(),
                i <= self.channels@.len(),
                forall|j: int| 0 <= j < i ==> self.channels@[j].0@ != key@,
            decreases self.channels@.len() - i,
        {
            if self.channels[i].0 == *key {
                proof {
                    let w = store_index_of(self.channels@, key@);
                    assert(self.channels@[i as int].0@ == key@);
                    assert(0 <= w < self.channels@.len() && self.channels@[w].0@ == key@);
                }
                return Some(i);
            }
            i = i + 1;
        }
        None
    }

    /// Removes and returns the buffer for `key`, or a fresh empty buffer if
    /// the channel is new.
    fn take_entry(&mut self, key: &String) -> (ch: ChannelMessages)
        requires
            old(self).wf(),
        ensures
            final(self).wf(),
            ch.wf(),
            !final(self).spec_contains(key@),
            store_same_except(old(self).channels@, final(self).channels@, key@),
            old(self).spec_contains(key@) ==> ch == old(self).spec_channel(key@),
            !old(self).spec_contains(key@) ==> ch.messages@.len() == 0 && !ch.is_loaded,
    {
        match self.index_of(key) {
            Some(i) => {
                let ghost pre = self.channels@;
                let e = self.channels.remove(i);
                proof {
                    assert forall|j: int| 0 <= j < self.channels@.len()
                        implies self.channels@[j].0@ != key@ by {
                        if j < i {
                            assert(self.channels@[j] == pre[j]);
                        } else {
                            assert(self.channels@[j] == pre[j + 1]);
                        }
                    }
                    assert forall|k: Seq<char>|
                        #![trigger store_contains(pre, k)]
                        #![trigger store_contains(self.channels@, k)]
                        k != key@ implies {
                        &&& store_contains(pre, k) == store_contains(self.channels@, k)
                        &&& (store_contains(pre, k) ==> store_value(pre, k) == store_value(
                            self.channels@,
                            k,
                        ))
                    } by {
                        if store_contains(pre, k) {
                            let w = store_index_of(pre, k);
                            assert(pre[w].0@ == k);
                            let w2: int = if w < i { w } else { w - 1 };
                            assert(self.channels@[w2] == pre[w]);
                            assert(store_contains(self.channels@, k));
                            let w3 = store_index_of(self.channels@, k);
                            let w3pre: int = if w3 < i { w3 } else { w3 + 1 };
                            assert(self.channels@[w3] == pre[w3pre]);
                            assert(w3pre == w);
                        } else {
                            if store_contains(self.channels@, k) {
                                let w = store_index_of(self.channels@, k);
                                let wpre: int = if w < i { w } else { w + 1 };
                                assert(pre[wpre] == self.channels@[w]);
                                assert(store_contains(pre, k));
                            }
                        }
                    }
                }
                e.1
            },
            None => ChannelMessages::new(),
        }
    }

    /// Stores `ch` under `key`; the channel must not be present yet.
    fn put_entry(&mut self, key: &String, ch: ChannelMessages)
        requires
            old(self).wf(),
            ch.wf(),
            !old(self).spec_contains(key@),
        ensures
            final(self).wf(),
            final(self).spec_contains(key@),
            final(self).spec_channel(key@) == ch,
            store_same_except(old(self).channels@, final(self).channels@, key@),
    {
        let ghost pre = self.channels@;
        let n = self.channels.len();
        self.channels.push((key.clone(), ch));
        proof {
            assert(self.channels@[n as int].0@ == key@);
            assert(store_contains(self.channels@, key@));
            let w = store_index_of(self.channels@, key@);
            assert(0 <= w < self.channels@.len() && self.channels@[w].0@ == key@);
            assert forall|j: int| 0 <= j < n implies self.channels@[j].0@ != key@ by {
                assert(self.channels@[j] == pre[j]);
            }
            assert(w == n);
            assert forall|k: Seq<char>|
                #![trigger store_contains(pre, k)]
                #![trigger store_contains(self.channels@, k)]
                k != key@ implies {
                &&& store_contains(pre, k) == store_contains(self.channels@, k)
                &&& (store_contains(pre, k) ==> store_value(pre, k) == store_value(
                    self.channels@,
                    k,
                ))
            } by {
                if store_contains(pre, k) {
                    let w1 = store_index_of(pre, k);
                    assert(self.channels@[w1] == pre[w1]);
                    assert(store_contains(self.channels@, k));
                    let w2 = store_index_of(self.channels@, k);
                    assert(w2 != n);
                    assert(pre[w2] == self.channels@[w2]);
                    assert(w2 == w1);
                } else {
                    if store_contains(self.channels@, k) {
                        let w2 = store_index_of(self.channels@, k);
                        assert(w2 != n);
                        assert(pre[w2] == self.channels@[w2]);
                        assert(store_contains(pre, k));
                    }
                }
            }
        }
    }

    /// The buffer for `channel_id`, if the channel is tracked.
    pub fn get_channel_messages(&self, channel_id: &str) -> (r: Option<&ChannelMessages>)
        requires
            self.wf(),
        ensures
            match r {
                Some(ch) => self.spec_contains(channel_id@) && *ch == self.spec_channel(
                    channel_id@,
                ),
                None => !self.spec_contains(channel_id@),
            },
    {
        let key = channel_id.to_owned();
        match self.index_of(&key) {
            Some(i) => Some(&self.channels[i].1),
            None => None,
        }
    }

    /// Is the channel's history marked as loaded?
    pub fn is_channel_loaded(&self, channel_id: &str) -> (r: bool)
        requires
            self.wf(),
        ensures
            r == (self.spec_contains(channel_id@) && self.spec_channel(channel_id@).is_loaded),
    {
        match self.get_channel_messages(channel_id) {
            Some(ch) => ch.is_loaded,
            None => false,
        }
    }

    /// Routes one live message into the channel's buffer, creating the
    /// buffer when the channel is new; duplicates by id are dropped.
    pub fn add_message(&mut self, channel_id: &str, msg: StoredMessage)
        requires
            old(self).wf(),
        ensures
            final(self).wf(),
            final(self).spec_contains(channel_id@),
            store_same_except(old(self).channels@, final(self).channels@, channel_id@),
            final(self).spec_channel(channel_id@).is_loaded == (old(self).spec_contains(channel_id@)
                && old(self).spec_channel(channel_id@).is_loaded),
            contains_id(old(self).spec_pre_messages(channel_id@), msg.id@)
                ==> final(self).spec_channel(channel_id@).messages@
                == old(self).spec_pre_messages(channel_id@),
            !contains_id(old(self).spec_pre_messages(channel_id@), msg.id@) ==> inserted(
                old(self).spec_pre_messages(channel_id@),
                final(self).spec_channel(channel_id@).messages@,
                msg,
            ),
    {
        let key = channel_id.to_owned();
        let mut ch = self.take_entry(&key);
        proof {
            if !old(self).spec_contains(channel_id@) {
                assert(ch.messages@ =~= Seq::<StoredMessage>::empty());
            }
        }
        ch.add_message(msg);
        self.put_entry(&key, ch);
    }

    /// Replaces the channel's buffer with the given history, stable-sorted
    /// ascending by `created_at`, and marks the channel loaded.
    pub fn set_channel_history(&mut self, channel_id: &str, messages: Vec<StoredMessage>)
        requires
            old(self).wf(),
        ensures
            final(self).wf(),
            final(self).spec_contains(channel_id@),
            store_same_except(old(self).channels@, final(self).channels@, channel_id@),
            final(self).spec_channel(channel_id@).is_loaded,
            final(self).spec_channel(channel_id@).messages@ == spec_stable_sorted(messages@),
            final(self).spec_channel(channel_id@).messages@.to_multiset() == messages@.to_multiset(),
    {
        let key = channel_id.to_owned();
        let mut ch = self.take_entry(&key);
        ch.set_history(messages);
        self.put_entry(&key, ch);
    }
}

/// Inserting an element into a sequence adds exactly that element to its
/// multiset of contents.
proof fn lemma_insert_to_multiset(s: Seq<StoredMessage>, p: int, x: StoredMessage)
    requires
        0 <= p <= s.len(),
    ensures
        s.insert(p, x).to_multiset() == s.to_multiset().insert(x),
{
    let left = s.subrange(0, p);
    let right = s.subrange(p, s.len() as int);
    assert(s.insert(p, x) =~= left.push(x) + right);
    vstd::seq_lib::lemma_multiset_commutative(left.push(x), right);
    left.to_multiset_ensures();
    vstd::seq_lib::lemma_multiset_commutative(left, right);
    assert(s =~= left + right);
    assert(left.to_multiset().insert(x).add(right.to_multiset())
        =~= left.to_multiset().add(right.to_multiset()).insert(x));
}


/// The user id a message author resolves to: a bare handle as itself; an
/// `ofscp://<domain>/users/<handle>` reference as `handle@domain`; any
/// other reference text unchanged.
pub open spec fn spec_extract_user_id(u: UserRef) -> Seq<char> {
    match u {
        UserRef::Handle(h) => h@,
        UserRef::Uri(uu) => {
            if seq_starts_with(uu@, "ofscp://"@) {
                let rest = uu@.skip("ofscp://"@.len() as int);
                match spec_find_seq(rest, "/users/"@) {
                    Some(idx) => rest.skip(idx + "/users/"@.len()) + seq!['@'] + rest.subrange(
                        0,
                        idx,
                    ),
                    None => uu@,
                }
            } else {
                uu@
            }
        },
    }
}

/// Resolves a wire author reference to the client's `handle@domain` form.
pub fn extract_user_id(user_ref: &UserRef) -> (r: String)
    ensures
        r@ == spec_extract_user_id(*user_ref),
{
    match user_ref {
        UserRef::Handle(h) => h.clone(),
        UserRef::Uri(u) => {
            let v = str_to_chars(u.as_str());
            let scheme = str_to_chars("ofscp://");
            if starts_with(&v, &scheme) {
                let rest = subvec(&v, scheme.len(), v.len());
                proof {
                    assert(rest@ =~= v@.skip("ofscp://"@.len() as int));
                }
                let marker = str_to_chars("/users/");
                proof {
                    reveal_strlit("/users/");
                }
                match find_seq(&rest, &marker) {
                    Some(idx) => {
                        let domain = subvec(&rest, 0, idx);
                        let handle = subvec(&rest, idx + marker.len(), rest.len());
                        let mut out = handle;
                        out.push('@');
                        push_all(&mut out, &domain);
                        proof {
                            assert(rest@.subrange(
                                idx + "/users/"@.len() as int,
                                rest@.len() as int,
                            ) =~= rest@.skip(idx + "/users/"@.len()));
                            assert(out@ =~= rest@.skip(idx + "/users/"@.len()) + seq!['@']
                                + rest@.subrange(0, idx as int));
                        }
                        chars_to_string(&out)
                    },
                    None => u.clone(),
                }
            } else {
                u.clone()
            }
        },
    }
}

/// An exact copy of an attachment.
pub fn clone_attachment(a: &Attachment) -> (r: Attachment)
    ensures
        r.id@ == a.id@,
        r.mime@ == a.mime@,
        r.url@ == a.url@,
        r.size == a.size,
{
    Attachment { id: a.id.clone(), mime: a.mime.clone(), url: a.url.clone(), size: a.size }
}

/// Field-by-field equality of attachments, at the level of views.
pub open spec fn attachment_like(a: Attachment, b: Attachment) -> bool {
    a.id@ == b.id@ && a.mime@ == b.mime@ && a.url@ == b.url@ && a.size == b.size
}

fn clone_attachments(s: &Vec<Attachment>) -> (r: Vec<Attachment>)
    ensures
        r@.len() == s@.len(),
        forall|i: int| 0 <= i < s@.len() ==> attachment_like(#[trigger] r@[i], s@[i]),
{
    let mut r: Vec<Attachment> = Vec::new();
    let mut i: usize = 0;
    while i < s.len()
        invariant
            i <= s@.len(),
            r@.len() == i,
            forall|j: int| 0 <= j < i ==> attachment_like(#[trigger] r@[j], s@[j]),
        decreases s@.len() - i,
    {
        r.push(clone_attachment(&s[i]));
        i = i + 1;
    }
    r
}

fn clone_opt_string(s: &Option<String>) -> (r: Option<String>)
    ensures
        match s {
            Some(v) => r matches Some(rv) && rv@ == v@,
            None => r is None,
        },
{
    match s {
        Some(v) => Some(v.clone()),
        None => None,
    }
}

/// Normalizes a wire message into the client's stored form, resolving the
/// author and reducing the RFC 3339 timestamp to epoch milliseconds; a
/// message whose timestamp does not parse is rejected.
pub fn stored_message_from_wire(message: &BaseMessage) -> (r: Option<StoredMessage>)
    ensures
        r is Some <==> rfc3339_epoch_ms(message.created_at@) is Some,
        r matches Some(sm) ==> {
            &&& sm.id@ == message.id@
            &&& sm.user_id@ == spec_extract_user_id(message.author)
            &&& match message.title {
                Some(t) => sm.title matches Some(st) && st@ == t@,
                None => sm.title is None,
            }
            &&& sm.content@ == message.content.text@
            &&& sm.message_type == message.message_type
            &&& rfc3339_epoch_ms(message.created_at@) == Some(sm.created_at)
            &&& match message.parent_id {
                Some(pm) => sm.parent_id matches Some(sp) && sp@ == pm@,
                None => sm.parent_id is None,
            }
            &&& sm.parent_message_type == message.parent_message_type
            &&& sm.attachments@.len() == message.attachments@.len()
            &&& forall|i: int|
                0 <= i < message.attachments@.len() ==> attachment_like(
                    #[trigger] sm.attachments@[i],
                    message.attachments@[i],
                )
        },
{
    let created_at = match parse_rfc3339_ms(message.created_at.as_str()) {
        Some(t) => t,
        None => {
            return None;
        },
    };
    Some(
        StoredMessage {
            id: message.id.clone(),
            user_id: extract_user_id(&message.author),
            title: clone_opt_string(&message.title),
            content: message.content.text.clone(),
            message_type: message.message_type,
            created_at,
            parent_id: clone_opt_string(&message.parent_id),
            parent_message_type: message.parent_message_type,
            attachments: clone_attachments(&message.attachments),
        },
    )
}

} // verus!
