//! The shared-subscription leader: which subscriptions are shared, how a
//! record is handed to one member of a group, the publish it becomes, and the
//! decisions of the per-topic pull loop and of the supervisor scan.

use vstd::prelude::*;
use vstd::string::StringExecFns;

verus! {

/// The prefix that marks a shared subscription.
pub open spec fn share_prefix() -> Seq<char> {
    seq!['$', 's', 'h', 'a', 'r', 'e']
}

pub open spec fn spec_is_share_sub(s: Seq<char>) -> bool {
    s.len() >= share_prefix().len() && s.subrange(0, share_prefix().len() as int) == share_prefix()
}

/// Whether a subscription path names a shared subscription (`$share/...`).
pub fn is_share_sub(sub_name: String) -> (r: bool)
    ensures
        r == spec_is_share_sub(sub_name@),
{
    let prefix = String::from_str("$share");
    proof {
        reveal_strlit("$share");
        assert(prefix@ =~= share_prefix());
    }
    let n = sub_name.unicode_len();
    if n < 6 {
        return false;
    }
    let mut i: usize = 0;
    while i < 6
        invariant
            i <= 6 <= n,
            n == sub_name@.len(),
            prefix@ == share_prefix(),
            sub_name@.subrange(0, i as int) == prefix@.subrange(0, i as int),
        decreases 6 - i,
    {
        if sub_name.get_char(i) != prefix.get_char(i) {
            proof {
                assert(sub_name@.subrange(0, 6)[i as int] != share_prefix()[i as int]);
            }
            return false;
        }
        proof {
            assert(sub_name@.subrange(0, i as int + 1) =~= sub_name@.subrange(0, i as int).push(
                sub_name@[i as int],
            ));
            assert(prefix@.subrange(0, i as int + 1) =~= prefix@.subrange(0, i as int).push(
                prefix@[i as int],
            ));
        }
        i = i + 1;
    }
    proof {
        assert(prefix@.subrange(0, 6) =~= prefix@);
    }
    true
}

/// The first position at or after `i` that holds `c`, or the length.
pub open spec fn index_from(s: Seq<char>, c: char, i: int) -> int
    decreases s.len() - i,
{
    if i >= s.len() {
        s.len() as int
    } else if s[i] == c {
        i
    } else {
        index_from(s, c, i + 1)
    }
}

pub(crate) proof fn lemma_index_from_bounds(s: Seq<char>, c: char, i: int)
    requires
        0 <= i,
    ensures
        index_from(s, c, i) >= i || index_from(s, c, i) == s.len(),
        index_from(s, c, i) <= s.len() || i > s.len(),
        i <= s.len() ==> i <= index_from(s, c, i) <= s.len(),
        index_from(s, c, i) < s.len() ==> s[index_from(s, c, i)] == c,
    decreases s.len() - i,
{
    if i < s.len() && s[i] != c {
        lemma_index_from_bounds(s, c, i + 1);
    }
}

pub(crate) fn find_char_from(s: &String, c: char, from: usize) -> (r: usize)
    requires
        from <= s@.len(),
    ensures
        r == index_from(s@, c, from as int),
{
    let n = s.unicode_len();
    let mut i = from;
    while i < n
        invariant
            from <= i <= n,
            n == s@.len(),
            index_from(s@, c, from as int) == index_from(s@, c, i as int),
        decreases n - i,
    {
        if s.get_char(i) == c {
            return i;
        }
        i = i + 1;
    }
    i
}

/// The group name of a shared subscription: what stands between the first
/// and the second `/`.
pub open spec fn share_group_of(s: Seq<char>) -> Seq<char> {
    let a = index_from(s, '/', 0);
    let b = index_from(s, '/', a + 1);
    s.subrange(a + 1, b)
}

/// The topic filter of a shared subscription: `/` and what follows the
/// second `/`.
pub open spec fn share_topic_of(s: Seq<char>) -> Seq<char> {
    let a = index_from(s, '/', 0);
    let b = index_from(s, '/', a + 1);
    if b < s.len() {
        seq!['/'] + s.subrange(b + 1, s.len() as int)
    } else {
        seq!['/']
    }
}

/// Splits `$share/{group}/{filter}` into the group name and `/{filter}`.
pub fn decode_share_info(sub_name: String) -> (r: (String, String))
    requires
        exists|i: int| 0 <= i < sub_name@.len() && sub_name@[i] == '/',
    ensures
        r.0@ == share_group_of(sub_name@),
        r.1@ == share_topic_of(sub_name@),
{
    proof {
        lemma_index_from_bounds(sub_name@, '/', 0);
        let w = choose|i: int| 0 <= i < sub_name@.len() && sub_name@[i] == '/';
        lemma_index_before_witness(sub_name@, '/', 0, w);
    }
    let n = sub_name.unicode_len();
    let a = find_char_from(&sub_name, '/', 0);
    proof {
        lemma_index_from_bounds(sub_name@, '/', a as int + 1);
    }
    let b = find_char_from(&sub_name, '/', a + 1);
    let group = sub_name.substring_char(a + 1, b).to_owned();
    let slash = String::from_str("/");
    proof {
        reveal_strlit("/");
    }
    let topic = if b < n {
        slash.concat(sub_name.substring_char(b + 1, n))
    } else {
        slash
    };
    proof {
        assert(slash@ =~= seq!['/']);
    }
    (group, topic)
}

pub(crate) proof fn lemma_index_before_witness(s: Seq<char>, c: char, i: int, w: int)
    requires
        0 <= i <= w < s.len(),
        s[w] == c,
    ensures
        index_from(s, c, i) <= w,
    decreases w - i,
{
    if s[i] != c {
        lemma_index_before_witness(s, c, i + 1, w);
    }
}


pub open spec fn has_slash(s: Seq<char>) -> bool {
    exists|i: int| 0 <= i < s.len() && s[i] == '/'
}

/// The topic a subscription path shares, if it is a shared subscription:
/// the filter after the group, without its leading `/`.
pub open spec fn spec_shared_topic(path: Seq<char>) -> Option<Seq<char>> {
    if spec_is_share_sub(path) && has_slash(path) {
        Some(share_topic_of(path).drop_first())
    } else {
        None
    }
}

/// The topic a shared subscription path reads (`$share/g/t/x` reads `t/x`);
/// `None` for a path that is not a shared subscription.
pub fn shared_topic_name(path: &String) -> (r: Option<String>)
    ensures
        match (r, spec_shared_topic(path@)) {
            (Some(t), Some(u)) => t@ == u,
            (None, None) => true,
            _ => false,
        },
{
    if !is_share_sub(path.clone()) {
        return None;
    }
    let n = path.unicode_len();
    let a = find_char_from(path, '/', 0);
    if a >= n {
        proof {
            lemma_index_from_bounds(path@, '/', 0);
            if has_slash(path@) {
                let w = choose|i: int| 0 <= i < path@.len() && path@[i] == '/';
                lemma_index_before_witness(path@, '/', 0, w);
            }
        }
        return None;
    }
    proof {
        lemma_index_from_bounds(path@, '/', 0);
        assert(path@[a as int] == '/');
    }
    let (_group, topic) = decode_share_info(path.clone());
    proof {
        assert(topic@.len() >= 1);
    }
    let m = topic.unicode_len();
    let t = topic.substring_char(1, m).to_owned();
    proof {
        assert(t@ =~= share_topic_of(path@).drop_first());
    }
    Some(t)
}

/// MQTT quality of service.
#[derive(Clone, Copy, Debug, PartialEq, Eq, Structural)]
pub enum QoS {
    AtMostOnce,
    AtLeastOnce,
    ExactlyOnce,
}

pub open spec fn qos_level(q: QoS) -> int {
    match q {
        QoS::AtMostOnce => 0,
        QoS::AtLeastOnce => 1,
        QoS::ExactlyOnce => 2,
    }
}

/// The lower of two service levels: what a shared-subscription push uses.
pub fn min_qos(a: QoS, b: QoS) -> (r: QoS)
    ensures
        qos_level(r) == if qos_level(a) <= qos_level(b) {
            qos_level(a)
        } else {
            qos_level(b)
        },
        r == a || r == b,
{
    match (a, b) {
        (QoS::AtMostOnce, _) => a,
        (_, QoS::AtMostOnce) => b,
        (QoS::AtLeastOnce, _) => a,
        _ => b,
    }
}

/// The MQTT protocol version a connection negotiated.
#[derive(Clone, Copy, Debug, PartialEq, Eq, Structural)]
pub enum MqttProtocol {
    Mqtt3,
    Mqtt4,
    Mqtt5,
}

/// The two response channels: one for MQTT 3.1 and 3.1.1, one for MQTT 5.
#[derive(Clone, Copy, Debug, PartialEq, Eq, Structural)]
pub enum ResponseQueue {
    V4,
    V5,
}

/// The response channel for a protocol version.
pub fn response_queue_for(protocol: MqttProtocol) -> (r: ResponseQueue)
    ensures
        protocol is Mqtt5 <==> r is V5,
{
    match protocol {
        MqttProtocol::Mqtt5 => ResponseQueue::V5,
        _ => ResponseQueue::V4,
    }
}

/// The five ways a leader hands records to the members of a share group.
#[derive(Clone, Copy, Debug, PartialEq, Eq, Structural)]
pub enum ShareStrategy {
    RoundRobin,
    Random,
    Sticky,
    Hash,
    Local,
}

pub open spec fn strategy_name(st: ShareStrategy) -> Seq<char> {
    match st {
        ShareStrategy::RoundRobin => seq!['r', 'o', 'u', 'n', 'd', '_', 'r', 'o', 'b', 'i', 'n'],
        ShareStrategy::Random => seq!['r', 'a', 'n', 'd', 'o', 'm'],
        ShareStrategy::Sticky => seq!['s', 't', 'i', 'c', 'k', 'y'],
        ShareStrategy::Hash => seq!['h', 'a', 's', 'h'],
        ShareStrategy::Local => seq!['l', 'o', 'c', 'a', 'l'],
    }
}

/// The strategy that a configuration value names, if it names one.
pub fn parse_strategy(name: &String) -> (r: Option<ShareStrategy>)
    ensures
        r is Some ==> strategy_name(r->Some_0) == name@,
        r is None ==> forall|st: ShareStrategy| strategy_name(st) != name@,
{
    proof {
        reveal_strlit("round_robin");
        reveal_strlit("random");
        reveal_strlit("sticky");
        reveal_strlit("hash");
        reveal_strlit("local");
    }
    let rr = String::from_str("round_robin");
    let ra = String::from_str("random");
    let st = String::from_str("sticky");
    let ha = String::from_str("hash");
    let lo = String::from_str("local");
    proof {
        assert(rr@ =~= strategy_name(ShareStrategy::RoundRobin));
        assert(ra@ =~= strategy_name(ShareStrategy::Random));
        assert(st@ =~= strategy_name(ShareStrategy::Sticky));
        assert(ha@ =~= strategy_name(ShareStrategy::Hash));
        assert(lo@ =~= strategy_name(ShareStrategy::Local));
    }
    if *name == rr {
        Some(ShareStrategy::RoundRobin)
    } else if *name == ra {
        Some(ShareStrategy::Random)
    } else if *name == st {
        Some(ShareStrategy::Sticky)
    } else if *name == ha {
        Some(ShareStrategy::Hash)
    } else if *name == lo {
        Some(ShareStrategy::Local)
    } else {
        None
    }
}

/// A member of a share group as the leader sees it.
#[derive(Clone)]
pub struct ShareSubscriber {
    pub client_id: String,
    /// The connection of the member's session, if it has one now.
    pub connection_id: Option<u64>,
    /// The broker node the member is connected to.
    pub node_id: u64,
    pub qos: QoS,
    pub packet_identifier: u16,
    pub subscription_identifier: Option<usize>,
    pub protocol: MqttProtocol,
}

/// The members of one shared topic, in the order they joined.
pub struct ShareGroup {
    pub topic: String,
    pub members: Vec<ShareSubscriber>,
}

pub open spec fn topics_of(gs: Seq<ShareGroup>) -> Seq<Seq<char>> {
    gs.map_values(|g: ShareGroup| g.topic@)
}

/// `s` without the members of client `c`, order kept.
pub open spec fn without_client(s: Seq<ShareSubscriber>, c: Seq<char>) -> Seq<ShareSubscriber>
    decreases s.len(),
{
    if s.len() == 0 {
        s
    } else if s[0].client_id@ == c {
        without_client(s.drop_first(), c)
    } else {
        seq![s[0]] + without_client(s.drop_first(), c)
    }
}

/// The members of `members` that do not belong to client `client_id`.
fn members_without_client(members: Vec<ShareSubscriber>, client_id: &String) -> (r: Vec<ShareSubscriber>)
    ensures
        r@ == without_client(members@, client_id@),
{
    let ghost all = members@;
    let mut src = members;
    let mut kept: Vec<ShareSubscriber> = Vec::new();
    while src.len() > 0
        invariant
            kept@ + without_client(src@, client_id@) == without_client(all, client_id@),
        decreases src@.len(),
    {
        let ghost before = src@;
        let m = src.remove(0);
        proof {
            assert(src@ =~= before.drop_first());
        }
        if m.client_id != *client_id {
            let ghost k0 = kept@;
            kept.push(m);
            proof {
                assert(kept@ + without_client(src@, client_id@) =~= k0 + (seq![m] + without_client(src@, client_id@)));
            }
        }
    }
    proof {
        assert(kept@ =~= kept@ + without_client(src@, client_id@));
    }
    kept
}

/// The shared subscriptions of the broker: for each topic, its members.
pub struct ShareSubRegistry {
    pub groups: Vec<ShareGroup>,
}

impl ShareSubRegistry {
    /// Each topic has one group.
    pub open spec fn wf(&self) -> bool {
        topics_of(self.groups@).no_duplicates()
    }

    pub open spec fn has_topic(&self, t: Seq<char>) -> bool {
        topics_of(self.groups@).contains(t)
    }

    pub fn new() -> (r: ShareSubRegistry)
        ensures
            r.wf(),
            r.groups@.len() == 0,
    {
        let r = ShareSubRegistry { groups: Vec::new() };
        proof {
            assert(topics_of(r.groups@) =~= Seq::<Seq<char>>::empty());
        }
        r
    }

    /// The position of a topic's group.
    pub fn find(&self, topic: &String) -> (r: Option<usize>)
        ensures
            r is Some ==> r->Some_0 < self.groups@.len() && self.groups@[r->Some_0 as int].topic@ == topic@,
            r is None ==> !self.has_topic(topic@),
    {
        let mut i: usize = 0;
        while i < self.groups.len()
            invariant
                i <= self.groups@.len(),
                forall|j: int| 0 <= j < i ==> self.groups@[j].topic@ != topic@,
            decreases self.groups@.len() - i,
        {
            if self.groups[i].topic == *topic {
                return Some(i);
            }
            i = i + 1;
        }
        proof {
            if self.has_topic(topic@) {
                let j = topics_of(self.groups@).index_of(topic@);
                assert(self.groups@[j].topic@ == topic@);
            }
        }
        None
    }

    /// How many members a topic has (none for an unknown topic).
    pub fn member_count(&self, topic: &String) -> (r: usize)
        requires
            self.wf(),
        ensures
            !self.has_topic(topic@) ==> r == 0,
            forall|i: int|
                0 <= i < self.groups@.len() && #[trigger] self.groups@[i].topic@ == topic@ ==> r
                    == self.groups@[i].members@.len(),
    {
        match self.find(topic) {
            Some(i) => {
                proof {
                    assert(topics_of(self.groups@)[i as int] == topic@);
                    assert forall|k: int| 0 <= k < self.groups@.len() && #[trigger] self.groups@[k].topic@ == topic@ implies k == i by {
                        assert(topics_of(self.groups@)[k] == topics_of(self.groups@)[i as int]);
                    }
                }
                self.groups[i].members.len()
            },
            None => {
                proof {
                    assert forall|k: int| 0 <= k < self.groups@.len() implies self.groups@[k].topic@ != topic@ by {
                        assert(topics_of(self.groups@)[k] == self.groups@[k].topic@);
                    }
                }
                0
            },
        }
    }

    /// Adds a member to a topic's group, creating the group if needed.
    pub fn add_member(&mut self, topic: String, member: ShareSubscriber)
        requires
            old(self).wf(),
        ensures
            final(self).wf(),
            final(self).has_topic(topic@),
            old(self).has_topic(topic@) ==> topics_of(final(self).groups@) == topics_of(old(self).groups@),
            !old(self).has_topic(topic@) ==> topics_of(final(self).groups@) == topics_of(old(self).groups@).push(topic@),
            forall|i: int|
                0 <= i < final(self).groups@.len() && #[trigger] final(self).groups@[i].topic@ == topic@ ==> final(self).groups@[i].members@
                    == (if old(self).has_topic(topic@) {
                    old(self).groups@[i].members@.push(member)
                } else {
                    seq![member]
                }),
            forall|i: int|
                0 <= i < old(self).groups@.len() && #[trigger] old(self).groups@[i].topic@ != topic@ ==> final(self).groups@[i] == old(self).groups@[i],
    {
        match self.find(&topic) {
            Some(i) => {
                let mut g = self.groups.remove(i);
                g.members.push(member);
                self.groups.insert(i, g);
                proof {
                    assert(topics_of(self.groups@) =~= topics_of(old(self).groups@));
                    assert(topics_of(self.groups@)[i as int] == topic@);
                    assert forall|k: int| 0 <= k < self.groups@.len() && #[trigger] self.groups@[k].topic@ == topic@ implies k == i by {
                        assert(topics_of(old(self).groups@)[k] == topics_of(old(self).groups@)[i as int]);
                    }
                }
            },
            None => {
                let mut members: Vec<ShareSubscriber> = Vec::new();
                members.push(member);
                self.groups.push(ShareGroup { topic, members });
                proof {
                    let n = old(self).groups@.len();
                    assert(topics_of(self.groups@) =~= topics_of(old(self).groups@).push(topic@));
                    assert(topics_of(self.groups@)[n as int] == topic@);
                    assert forall|a: int, b: int| 0 <= a < b < topics_of(self.groups@).len() implies topics_of(self.groups@)[a] != topics_of(self.groups@)[b] by {
                        if b == n {
                            assert(topics_of(old(self).groups@)[a] == old(self).groups@[a].topic@);
                        }
                    }
                    assert forall|k: int| 0 <= k < self.groups@.len() && #[trigger] self.groups@[k].topic@ == topic@ implies k == n by {
                        if k < n {
                            assert(topics_of(old(self).groups@)[k] == old(self).groups@[k].topic@);
                        }
                    }
                }
            },
        }
    }

    /// Removes a client's members from a topic's group.
    pub fn remove_member(&mut self, topic: &String, client_id: &String)
        requires
            old(self).wf(),
        ensures
            final(self).wf(),
            topics_of(final(self).groups@) == topics_of(old(self).groups@),
            forall|i: int|
                0 <= i < old(self).groups@.len() && #[trigger] old(self).groups@[i].topic@ == topic@ ==> final(self).groups@[i].members@
                    == without_client(old(self).groups@[i].members@, client_id@),
            forall|i: int|
                0 <= i < old(self).groups@.len() && #[trigger] old(self).groups@[i].topic@ != topic@ ==> final(self).groups@[i] == old(self).groups@[i],
    {
        match self.find(topic) {
            None => {
                proof {
                    assert forall|k: int| 0 <= k < old(self).groups@.len() implies old(self).groups@[k].topic@ != topic@ by {
                        assert(topics_of(old(self).groups@)[k] == old(self).groups@[k].topic@);
                    }
                }
            },
            Some(i) => {
                let g = self.groups.remove(i);
                let kept = members_without_client(g.members, client_id);
                self.groups.insert(i, ShareGroup { topic: g.topic, members: kept });
                proof {
                    assert(topics_of(self.groups@) =~= topics_of(old(self).groups@));
                    assert forall|k: int| 0 <= k < old(self).groups@.len() && #[trigger] old(self).groups@[k].topic@ == topic@ implies k == i by {
                        assert(topics_of(old(self).groups@)[k] == topics_of(old(self).groups@)[i as int]);
                    }
                }
            },
        }
    }

    /// Removes a client from every group (its session ended).
    pub fn remove_client(&mut self, client_id: &String)
        requires
            old(self).wf(),
        ensures
            final(self).wf(),
            final(self).groups@.len() == old(self).groups@.len(),
            topics_of(final(self).groups@) == topics_of(old(self).groups@),
            forall|i: int|
                0 <= i < old(self).groups@.len() ==> #[trigger] final(self).groups@[i].members@ == without_client(
                    old(self).groups@[i].members@,
                    client_id@,
                ),
    {
        let n = self.groups.len();
        let mut i: usize = 0;
        while i < n
            invariant
                n == old(self).groups@.len(),
                self.groups@.len() == n,
                i <= n,
                topics_of(self.groups@) == topics_of(old(self).groups@),
                forall|j: int| 0 <= j < i ==> #[trigger] self.groups@[j].members@ == without_client(old(self).groups@[j].members@, client_id@),
                forall|j: int| i <= j < n ==> #[trigger] self.groups@[j] == old(self).groups@[j],
            decreases n - i,
        {
            let ghost before = self.groups@;
            let g = self.groups.remove(i);
            let kept = members_without_client(g.members, client_id);
            self.groups.insert(i, ShareGroup { topic: g.topic, members: kept });
            proof {
                assert(self.groups@ =~= before.update(i as int, self.groups@[i as int]));
                assert(topics_of(self.groups@) =~= topics_of(before));
            }
            i = i + 1;
        }
        proof {
            assert(topics_of(self.groups@) =~= topics_of(old(self).groups@));
        }
    }

    /// Drops a topic's group (the leader has stopped for it).
    pub fn remove_group(&mut self, topic: &String)
        requires
            old(self).wf(),
        ensures
            final(self).wf(),
            !final(self).has_topic(topic@),
            forall|t: Seq<char>| t != topic@ ==> (final(self).has_topic(t) <==> old(self).has_topic(t)),
    {
        match self.find(topic) {
            None => {},
            Some(i) => {
                self.groups.remove(i);
                proof {
                    let o = topics_of(old(self).groups@);
                    assert(topics_of(self.groups@) =~= o.remove(i as int));
                    assert forall|a: int, b: int| 0 <= a < b < topics_of(self.groups@).len() implies topics_of(self.groups@)[a] != topics_of(self.groups@)[b] by {
                        let a2 = if a < i { a } else { a + 1 };
                        let b2 = if b < i { b } else { b + 1 };
                        assert(topics_of(self.groups@)[a] == o[a2]);
                        assert(topics_of(self.groups@)[b] == o[b2]);
                    }
                    if self.has_topic(topic@) {
                        let j = topics_of(self.groups@).index_of(topic@);
                        let j2 = if j < i { j } else { j + 1 };
                        assert(o[j2] == topic@);
                        assert(o[i as int] == topic@);
                    }
                    assert forall|t: Seq<char>| t != topic@ implies (self.has_topic(t) <==> old(self).has_topic(t)) by {
                        if old(self).has_topic(t) {
                            let j = o.index_of(t);
                            assert(j != i);
                            let j2 = if j < i { j } else { j - 1 };
                            assert(topics_of(self.groups@)[j2] == t);
                        }
                        if self.has_topic(t) {
                            let j = topics_of(self.groups@).index_of(t);
                            let j2 = if j < i { j } else { j + 1 };
                            assert(o[j2] == t);
                        }
                    }
                }
            },
        }
    }
}

pub open spec fn available(subs: Seq<ShareSubscriber>) -> Seq<bool> {
    subs.map_values(|s: ShareSubscriber| s.connection_id is Some)
}

/// Round robin from `c + k`: the first member, going round from `c`, whose
/// session has a connection.
pub open spec fn rr_scan(avail: Seq<bool>, c: int, k: int) -> Option<int>
    decreases avail.len() - k,
{
    if k >= avail.len() || avail.len() == 0 {
        None
    } else if avail[(c + k) % (avail.len() as int)] {
        Some((c + k) % (avail.len() as int))
    } else {
        rr_scan(avail, c, k + 1)
    }
}

proof fn lemma_rr_scan_found(avail: Seq<bool>, c: int, k: int)
    requires
        0 <= c < avail.len(),
        0 <= k,
    ensures
        rr_scan(avail, c, k) is Some ==> 0 <= rr_scan(avail, c, k)->Some_0 < avail.len()
            && avail[rr_scan(avail, c, k)->Some_0],
        rr_scan(avail, c, k) is None ==> forall|j: int|
            k <= j < avail.len() ==> !#[trigger] avail[(c + j) % (avail.len() as int)],
    decreases avail.len() - k,
{
    let n = avail.len() as int;
    if k < n {
        assert(0 <= (c + k) % n < n) by (nonlinear_arith)
            requires n > 0;
        lemma_rr_scan_found(avail, c, k + 1);
    }
}

/// With every member connected, round robin picks the member under the cursor.
pub proof fn lemma_round_robin_all_connected(avail: Seq<bool>, c: int)
    requires
        0 <= c < avail.len(),
        forall|i: int| 0 <= i < avail.len() ==> avail[i],
    ensures
        rr_scan(avail, c, 0) == Some(c),
{
    let n = avail.len() as int;
    assert(c % n == c) by (nonlinear_arith)
        requires 0 <= c < n;
}

/// The user property that marks a publish rewritten for a share group.
pub fn share_sub_rewrite_publish_flag() -> (r: (String, String))
    ensures
        r.0@ == seq!['s', 'h', 'a', 'r', 'e', '_', 's', 'u', 'b'],
        r.1@ == seq!['t', 'r', 'u', 'e'],
{
    proof {
        reveal_strlit("share_sub");
        reveal_strlit("true");
    }
    let k = String::from_str("share_sub");
    let v = String::from_str("true");
    proof {
        assert(k@ =~= seq!['s', 'h', 'a', 'r', 'e', '_', 's', 'u', 'b']);
        assert(v@ =~= seq!['t', 'r', 'u', 'e']);
    }
    (k, v)
}

/// A publish that a leader sends to a member of a share group.
pub struct SharePublish {
    pub connection_id: u64,
    pub protocol: MqttProtocol,
    pub dup: bool,
    pub qos: QoS,
    pub pkid: u16,
    pub retain: bool,
    pub topic: String,
    pub payload: Vec<u8>,
    pub user_properties: Vec<(String, String)>,
    pub subscription_identifiers: Vec<usize>,
}

/// The publish that carries a record to a member: the lower of the two service
/// levels, never retained, marked as rewritten for a share group, with the
/// member's subscription identifier where it has one.
pub fn build_share_publish(
    sub: &ShareSubscriber,
    connection_id: u64,
    record_qos: QoS,
    topic: String,
    payload: Vec<u8>,
) -> (r: SharePublish)
    ensures
        r.connection_id == connection_id,
        r.protocol == sub.protocol,
        !r.dup,
        !r.retain,
        r.qos == min_qos_spec(record_qos, sub.qos),
        r.pkid == sub.packet_identifier,
        r.topic@ == topic@,
        r.payload@ == payload@,
        r.user_properties@.len() == 1,
        r.user_properties@[0].0@ == seq!['s', 'h', 'a', 'r', 'e', '_', 's', 'u', 'b'],
        r.user_properties@[0].1@ == seq!['t', 'r', 'u', 'e'],
        r.subscription_identifiers@ == (match sub.subscription_identifier {
            Some(id) => seq![id],
            None => Seq::<usize>::empty(),
        }),
{
    let mut sub_ids: Vec<usize> = Vec::new();
    if let Some(id) = sub.subscription_identifier {
        sub_ids.push(id);
    }
    let mut props: Vec<(String, String)> = Vec::new();
    props.push(share_sub_rewrite_publish_flag());
    proof {
        assert(sub_ids@ =~= (match sub.subscription_identifier {
            Some(id) => seq![id],
            None => Seq::<usize>::empty(),
        }));
    }
    SharePublish {
        connection_id,
        protocol: sub.protocol,
        dup: false,
        qos: min_qos(record_qos, sub.qos),
        pkid: sub.packet_identifier,
        retain: false,
        topic,
        payload,
        user_properties: props,
        subscription_identifiers: sub_ids,
    }
}

pub open spec fn opt_int(o: Option<usize>) -> Option<int> {
    match o {
        Some(i) => Some(i as int),
        None => None,
    }
}

/// Whether member `i` is connected and on node `node`.
pub open spec fn is_local(subs: Seq<ShareSubscriber>, i: int, node: u64) -> bool {
    subs[i].connection_id is Some && subs[i].node_id == node
}

/// The member that round robin picks with the cursor at `c`.
fn rr_pick(subs: &Vec<ShareSubscriber>, c: usize) -> (r: Option<usize>)
    requires
        c < subs@.len(),
    ensures
        opt_int(r) == rr_scan(available(subs@), c as int, 0),
        r is Some ==> r->Some_0 < subs@.len() && subs@[r->Some_0 as int].connection_id is Some,
        r is None ==> forall|j: int| 0 <= j < subs@.len() ==> subs@[j].connection_id is None,
{
    let ghost avail = available(subs@);
    let n = subs.len();
    let mut k: usize = 0;
    proof {
        lemma_rr_scan_found(avail, c as int, 0);
    }
    while k < n
        invariant
            c < n,
            n == subs@.len(),
            avail == available(subs@),
            k <= n,
            rr_scan(avail, c as int, 0) == rr_scan(avail, c as int, k as int),
        decreases n - k,
    {
        let idx: usize = if k < n - c {
            c + k
        } else {
            k - (n - c)
        };
        proof {
            let ni = n as int;
            let ci = c as int;
            let ki = k as int;
            if ki < ni - ci {
                assert((ci + ki) % ni == ci + ki) by (nonlinear_arith)
                    requires 0 <= ci + ki < ni;
            } else {
                assert((ci + ki) % ni == ci + ki - ni) by (nonlinear_arith)
                    requires ni <= ci + ki < 2 * ni;
            }
            assert(avail[idx as int] == (subs@[idx as int].connection_id is Some));
        }
        if subs[idx].connection_id.is_some() {
            return Some(idx);
        }
        k = k + 1;
    }
    proof {
        assert forall|j: int| 0 <= j < subs@.len() implies subs@[j].connection_id is None by {
            let ni = n as int;
            let ci = c as int;
            let kj = if j >= ci { j - ci } else { j + ni - ci };
            assert((ci + kj) % ni == j) by (nonlinear_arith)
                requires 0 <= j < ni, 0 <= ci < ni, kj == (if j >= ci { j - ci } else { j + ni - ci });
            assert(!avail[(ci + kj) % ni]);
            assert(avail[j] == (subs@[j].connection_id is Some));
        }
    }
    None
}

/// The first connected member on node `node`.
fn first_local(subs: &Vec<ShareSubscriber>, node: u64) -> (r: Option<usize>)
    ensures
        r is Some ==> r->Some_0 < subs@.len() && is_local(subs@, r->Some_0 as int, node)
            && forall|j: int| 0 <= j < r->Some_0 ==> !is_local(subs@, j, node),
        r is None ==> forall|j: int| 0 <= j < subs@.len() ==> !is_local(subs@, j, node),
{
    let mut i: usize = 0;
    while i < subs.len()
        invariant
            i <= subs@.len(),
            forall|j: int| 0 <= j < i ==> !is_local(subs@, j, node),
        decreases subs@.len() - i,
    {
        if subs[i].connection_id.is_some() && subs[i].node_id == node {
            return Some(i);
        }
        i = i + 1;
    }
    None
}

/// The per-topic state of the push loop: the strategy chosen when the leader
/// was created and what that strategy remembers between records.
pub struct ShareSelector {
    pub strategy: ShareStrategy,
    /// Round robin: the member to consider first for the next record.
    pub cursor: usize,
    /// Sticky: the member that keeps receiving, and how many it has had.
    pub sticky: Option<usize>,
    pub sticky_sent: u64,
    /// Sticky: how many records one member receives in a row.
    pub sticky_batch: u64,
    /// Local: the node this broker runs on.
    pub local_node: u64,
}

/// The cursor position round robin starts from among `n` members.
pub open spec fn cursor_start(cursor: usize, n: int) -> int {
    if cursor < n {
        cursor as int
    } else {
        0
    }
}

/// The member at a position, where it is connected.
pub open spec fn if_connected(subs: Seq<ShareSubscriber>, i: int) -> Option<int> {
    if subs[i].connection_id is Some {
        Some(i)
    } else {
        None
    }
}

/// How round robin moves its cursor: past the member it picked, or not at
/// all when it picked none.
pub open spec fn rr_cursor_moved(before: usize, after: usize, r: Option<usize>) -> bool {
    match r {
        Some(i) => after == i + 1,
        None => after == before,
    }
}

impl ShareSelector {
    pub fn new(strategy: ShareStrategy, sticky_batch: u64, local_node: u64) -> (r: ShareSelector)
        ensures
            r.strategy == strategy,
            r.cursor == 0,
            r.sticky is None,
            r.sticky_sent == 0,
            r.sticky_batch == sticky_batch,
            r.local_node == local_node,
    {
        ShareSelector { strategy, cursor: 0, sticky: None, sticky_sent: 0, sticky_batch, local_node }
    }

    fn round_robin(&mut self, subs: &Vec<ShareSubscriber>) -> (r: Option<usize>)
        requires
            subs@.len() > 0,
        ensures
            opt_int(r) == rr_scan(available(subs@), cursor_start(old(self).cursor, subs@.len() as int), 0),
            r is Some ==> r->Some_0 < subs@.len() && subs@[r->Some_0 as int].connection_id is Some,
            r is Some ==> final(self).cursor == r->Some_0 + 1,
            r is None ==> final(self).cursor == old(self).cursor,
            final(self).strategy == old(self).strategy,
            final(self).sticky == old(self).sticky,
            final(self).sticky_sent == old(self).sticky_sent,
            final(self).sticky_batch == old(self).sticky_batch,
            final(self).local_node == old(self).local_node,
    {
        let c = if self.cursor < subs.len() {
            self.cursor
        } else {
            0
        };
        let r = rr_pick(subs, c);
        if let Some(i) = r {
            self.cursor = i + 1;
        }
        r
    }

    /// Picks the member that receives the next record, or `None` where the
    /// strategy finds no connected member (that copy is skipped).
    /// `random` is a random draw and `key_hash` the hash of the record's key;
    /// each is read only by the strategy that needs it.
    pub fn select(&mut self, subs: &Vec<ShareSubscriber>, random: u64, key_hash: u64) -> (r: Option<usize>)
        ensures
            r is Some ==> r->Some_0 < subs@.len() && subs@[r->Some_0 as int].connection_id is Some,
            final(self).strategy == old(self).strategy,
            final(self).sticky_batch == old(self).sticky_batch,
            final(self).local_node == old(self).local_node,
            subs@.len() == 0 ==> r is None,
            subs@.len() > 0 && old(self).strategy is RoundRobin ==> opt_int(r) == rr_scan(
                available(subs@),
                cursor_start(old(self).cursor, subs@.len() as int),
                0,
            ) && rr_cursor_moved(old(self).cursor, final(self).cursor, r),
            subs@.len() == 0 || old(self).strategy is Random || old(self).strategy is Hash ==> final(self).cursor == old(self).cursor,
            subs@.len() > 0 && old(self).strategy is Random ==> opt_int(r) == if_connected(
                subs@,
                random as int % subs@.len() as int,
            ),
            subs@.len() > 0 && old(self).strategy is Hash ==> opt_int(r) == if_connected(
                subs@,
                key_hash as int % subs@.len() as int,
            ),
            subs@.len() > 0 && old(self).strategy is Sticky ==> {
                let keep = match old(self).sticky {
                    Some(i) => i < subs@.len() && subs@[i as int].connection_id is Some
                        && old(self).sticky_sent < old(self).sticky_batch,
                    None => false,
                };
                &&& keep ==> r == old(self).sticky && final(self).sticky_sent == old(
                    self,
                ).sticky_sent + 1 && final(self).cursor == old(self).cursor
                &&& !keep ==> opt_int(r) == rr_scan(
                    available(subs@),
                    cursor_start(old(self).cursor, subs@.len() as int),
                    0,
                ) && final(self).sticky == r && final(self).sticky_sent == 1
                    && rr_cursor_moved(old(self).cursor, final(self).cursor, r)
            },
            subs@.len() > 0 && old(self).strategy is Local ==> {
                let has_local = exists|j: int|
                    0 <= j < subs@.len() && is_local(subs@, j, old(self).local_node);
                &&& has_local ==> r is Some && is_local(subs@, r->Some_0 as int, old(self).local_node)
                    && (forall|j: int|
                    0 <= j < r->Some_0 ==> !is_local(subs@, j, old(self).local_node))
                    && final(self).cursor == old(self).cursor
                &&& !has_local ==> opt_int(r) == rr_scan(
                    available(subs@),
                    cursor_start(old(self).cursor, subs@.len() as int),
                    0,
                ) && rr_cursor_moved(old(self).cursor, final(self).cursor, r)
            },
    {
        let n = subs.len();
        if n == 0 {
            return None;
        }
        match self.strategy {
            ShareStrategy::RoundRobin => self.round_robin(subs),
            ShareStrategy::Random => {
                let i = (random % (n as u64)) as usize;
                if subs[i].connection_id.is_some() {
                    Some(i)
                } else {
                    None
                }
            },
            ShareStrategy::Hash => {
                let i = (key_hash % (n as u64)) as usize;
                if subs[i].connection_id.is_some() {
                    Some(i)
                } else {
                    None
                }
            },
            ShareStrategy::Sticky => {
                let keep = match self.sticky {
                    Some(i) => i < n && subs[i].connection_id.is_some() && self.sticky_sent
                        < self.sticky_batch,
                    None => false,
                };
                if keep {
                    self.sticky_sent = self.sticky_sent + 1;
                    self.sticky
                } else {
                    let r = self.round_robin(subs);
                    self.sticky = r;
                    self.sticky_sent = 1;
                    r
                }
            },
            ShareStrategy::Local => {
                match first_local(subs, self.local_node) {
                    Some(i) => Some(i),
                    None => self.round_robin(subs),
                }
            },
        }
    }
}

/// How many records the pull loop asks for at a time.
pub const PULL_RECORD_NUM: u128 = 100;

/// How long the pull loop waits after an empty read or a storage error, in
/// milliseconds.
pub const PULL_MAX_WAIT_MS: u64 = 500;

pub open spec fn pull_group_prefix() -> Seq<char> {
    seq!['s', 'y', 's', 't', 'e', 'm', '_', 's', 'u', 'b', '_']
}

/// The durable consumer group through which a topic's leader reads:
/// `system_sub_{topic_id}`.
pub fn pull_group_id(topic_id: &String) -> (r: String)
    ensures
        r@ == pull_group_prefix() + topic_id@,
{
    proof {
        reveal_strlit("system_sub_");
    }
    let p = String::from_str("system_sub_");
    proof {
        assert(p@ =~= pull_group_prefix());
    }
    p.concat(topic_id.as_str())
}

/// What the pull loop does next.
#[derive(Clone, Copy, Debug, PartialEq, Eq, Structural)]
pub enum PullAction {
    /// The stop signal came: end the loop.
    Terminate,
    /// Nothing to forward: wait this many milliseconds, then read again.
    Sleep(u64),
    /// Commit this offset (the last of the batch), then forward the batch.
    CommitAndForward(u128),
}

/// One turn of the pull loop: `stopped` says whether the stop signal came,
/// `read_ok` whether the read succeeded, and `last_offset` the offset of the
/// last record read (`None` for an empty batch).
pub fn pull_step(stopped: bool, read_ok: bool, last_offset: Option<u128>) -> (r: PullAction)
    ensures
        stopped ==> r == PullAction::Terminate,
        !stopped && (!read_ok || last_offset is None) ==> r == PullAction::Sleep(PULL_MAX_WAIT_MS),
        !stopped && read_ok && last_offset is Some ==> r == PullAction::CommitAndForward(
            last_offset->Some_0,
        ),
{
    if stopped {
        PullAction::Terminate
    } else if !read_ok {
        PullAction::Sleep(PULL_MAX_WAIT_MS)
    } else {
        match last_offset {
            Some(o) => PullAction::CommitAndForward(o),
            None => PullAction::Sleep(PULL_MAX_WAIT_MS),
        }
    }
}

/// Which of a topic's two leader tasks are running.
#[derive(Clone, Copy, Debug, PartialEq, Eq, Structural)]
pub struct LeaderSlots {
    pub pull: bool,
    pub push: bool,
}

/// What the supervisor does for one topic in one scan.
#[derive(Clone, Copy, Debug, PartialEq, Eq, Structural)]
pub enum ScanAction {
    /// The topic has no subscriber left: signal stop to the tasks named.
    Stop { pull: bool, push: bool },
    /// The topic has subscribers: start the tasks named that are missing.
    Start { pull: bool, push: Option<ShareStrategy> },
}

/// The supervisor's decision for a topic with `sub_count` shared subscribers.
pub fn scan_topic(sub_count: usize, slots: LeaderSlots, strategy: ShareStrategy) -> (r: ScanAction)
    ensures
        r == spec_scan(sub_count as int, slots, strategy),
{
    if sub_count == 0 {
        ScanAction::Stop { pull: slots.pull, push: slots.push }
    } else {
        ScanAction::Start {
            pull: !slots.pull,
            push: if slots.push {
                None
            } else {
                Some(strategy)
            },
        }
    }
}

/// The tasks left after the stop signals were sent: a task whose signal went
/// through is gone; one whose signal failed stays, to be signalled again on
/// the next scan. The topic's entry may be removed once the result is empty.
pub fn after_stop(slots: LeaderSlots, pull_sent: bool, push_sent: bool) -> (r: LeaderSlots)
    ensures
        r == spec_after_stop(slots, pull_sent, push_sent),
{
    LeaderSlots { pull: slots.pull && !pull_sent, push: slots.push && !push_sent }
}

pub open spec fn spec_scan(sub_count: int, slots: LeaderSlots, strategy: ShareStrategy) -> ScanAction {
    if sub_count == 0 {
        ScanAction::Stop { pull: slots.pull, push: slots.push }
    } else {
        ScanAction::Start {
            pull: !slots.pull,
            push: if slots.push {
                None
            } else {
                Some(strategy)
            },
        }
    }
}

pub open spec fn spec_after_stop(slots: LeaderSlots, pull_sent: bool, push_sent: bool) -> LeaderSlots {
    LeaderSlots { pull: slots.pull && !pull_sent, push: slots.push && !push_sent }
}

/// When a topic's subscribers drain to zero, the next scan signals stop to
/// every leader task of the topic; once the signals go through no task is
/// left, and a task whose signal failed is signalled again on the scan after.
/// A topic with subscribers and no leader gets both tasks started.
pub proof fn lemma_scan_drains_leader(slots: LeaderSlots, strategy: ShareStrategy, pull_sent: bool, push_sent: bool)
    ensures
        spec_scan(0, slots, strategy) == (ScanAction::Stop { pull: slots.pull, push: slots.push }),
        spec_after_stop(slots, true, true) == (LeaderSlots { pull: false, push: false }),
        spec_scan(0, spec_after_stop(slots, pull_sent, push_sent), strategy) == (ScanAction::Stop {
            pull: slots.pull && !pull_sent,
            push: slots.push && !push_sent,
        }),
        forall|n: int|
            n > 0 ==> #[trigger] spec_scan(n, LeaderSlots { pull: false, push: false }, strategy)
                == (ScanAction::Start { pull: true, push: Some(strategy) }),
{
}

pub open spec fn min_qos_spec(a: QoS, b: QoS) -> QoS {
    if qos_level(a) <= qos_level(b) {
        a
    } else {
        b
    }
}

} // verus!
