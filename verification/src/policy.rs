//! The policy store: a flat domain blocklist, a counter of blocked requests,
//! and the classification rule that tests a request host against the list.

use vstd::prelude::*;
use vstd::string::StrSliceExecFns;
use vstd::string::StringExecFns;

verus! {

/// The Allow/Block outcome computed for one intercepted request.
#[derive(Clone, Copy, Debug, PartialEq, Eq, Structural)]
pub enum Decision {
    Allow,
    Block,
}

impl Decision {
    /// The fixed label the audit trail writes for this outcome.
    pub fn label(&self) -> (s: String)
        ensures
            *self == Decision::Block ==> s@ == "BLOCK"@,
            *self == Decision::Allow ==> s@ == "ALLOW"@,
    {
        match self {
            Decision::Block => String::from_str("BLOCK"),
            Decision::Allow => String::from_str("ALLOW"),
        }
    }
}

/// `needle` occurs in `hay` starting at position `i`.
pub open spec fn matches_at(hay: Seq<char>, needle: Seq<char>, i: int) -> bool {
    &&& 0 <= i
    &&& i + needle.len() <= hay.len()
    &&& hay.subrange(i, i + needle.len()) == needle
}

/// `needle` is a contiguous substring of `hay`.
pub open spec fn is_substring(needle: Seq<char>, hay: Seq<char>) -> bool {
    exists|i: int| matches_at(hay, needle, i)
}

/// Compares `needle` against the characters of `hay` starting at `i`.
fn match_at(hay: &str, needle: &str, i: usize) -> (r: bool)
    requires
        i + needle@.len() <= hay@.len(),
        hay@.len() <= usize::MAX,
    ensures
        r == matches_at(hay@, needle@, i as int),
{
    let n = needle.unicode_len();
    let mut j: usize = 0;
    while j < n
        invariant
            j <= n,
            n == needle@.len(),
            i + n <= hay@.len() <= usize::MAX,
            forall|k: int| 0 <= k < j ==> hay@[i + k] == needle@[k],
        decreases n - j,
    {
        let hc = hay.get_char(i + j);
        let nc = needle.get_char(j);
        if hc != nc {
            proof {
                if matches_at(hay@, needle@, i as int) {
                    assert(hay@.subrange(i as int, i + n as int)[j as int] == needle@[j as int]);
                }
            }
            return false;
        }
        j += 1;
    }
    proof {
        assert(hay@.subrange(i as int, i + n as int) =~= needle@);
    }
    true
}

/// Substring test over characters, the matching rule of the blocklist:
/// case-sensitive, no normalization, no wildcard syntax.
pub fn str_contains(hay: &str, needle: &str) -> (r: bool)
    ensures
        r == is_substring(needle@, hay@),
{
    let hay_len = hay.unicode_len();
    let needle_len = needle.unicode_len();
    if needle_len > hay_len {
        proof {
            if is_substring(needle@, hay@) {
                let i = choose|i: int| matches_at(hay@, needle@, i);
                assert(false);
            }
        }
        return false;
    }
    if needle_len == 0 {
        proof {
            assert(hay@.subrange(0, 0) =~= needle@);
            assert(matches_at(hay@, needle@, 0));
        }
        return true;
    }
    let last = hay_len - needle_len;
    let mut i: usize = 0;
    while i <= last
        invariant
            hay@.len() == hay_len,
            needle@.len() == needle_len,
            1 <= needle_len <= hay_len,
            last == hay_len - needle_len,
            i <= last + 1,
            forall|k: int| 0 <= k < i ==> !matches_at(hay@, needle@, k),
        decreases last + 1 - i,
    {
        if match_at(hay, needle, i) {
            return true;
        }
        i += 1;
    }
    proof {
        if is_substring(needle@, hay@) {
            let k = choose|k: int| matches_at(hay@, needle@, k);
            assert(!matches_at(hay@, needle@, k));
        }
    }
    false
}

/// Blocked iff at least one configured domain is a substring of the host.
pub open spec fn spec_blocked(host: Seq<char>, domains: Seq<Seq<char>>) -> bool {
    exists|k: int| 0 <= k < domains.len() && is_substring(domains[k], host)
}

/// The classification rule over the mathematical view of the blocklist.
pub open spec fn spec_classify(host: Seq<char>, domains: Seq<Seq<char>>) -> Decision {
    if spec_blocked(host, domains) {
        Decision::Block
    } else {
        Decision::Allow
    }
}

/// Tests `host` against every configured domain; first match suffices.
pub fn classify(host: &str, domains: &Vec<String>) -> (d: Decision)
    ensures
        d == spec_classify(host@, domains.deep_view()),
{
    let ghost ds = domains.deep_view();
    let mut k: usize = 0;
    while k < domains.len()
        invariant
            ds == domains.deep_view(),
            ds.len() == domains@.len(),
            k <= domains@.len(),
            forall|k2: int| 0 <= k2 < k ==> !is_substring(ds[k2], host@),
        decreases domains@.len() - k,
    {
        proof {
            assert(ds[k as int] == domains@[k as int]@);
        }
        if str_contains(host, domains[k].as_str()) {
            return Decision::Block;
        }
        k += 1;
    }
    Decision::Allow
}

/// Mathematical view of the policy document: the blocklist as a sequence of
/// character sequences, and the counter as an unbounded natural.
#[verifier::ext_equal]
pub struct PolicyModel {
    pub blocked_domains: Seq<Seq<char>>,
    pub stats_blocked_today: nat,
}

/// The whole-document policy value: the flat blocklist and the counter of
/// requests blocked so far. Replacing it replaces both fields at once.
pub struct PolicyConfig {
    pub blocked_domains: Vec<String>,
    pub stats_blocked_today: u64,
}

impl View for PolicyConfig {
    type V = PolicyModel;

    open spec fn view(&self) -> PolicyModel {
        PolicyModel {
            blocked_domains: self.blocked_domains.deep_view(),
            stats_blocked_today: self.stats_blocked_today as nat,
        }
    }
}

/// The effect of one atomic classify-and-count step on the stored document.
pub open spec fn spec_step(m: PolicyModel, host: Seq<char>) -> PolicyModel {
    if spec_blocked(host, m.blocked_domains) {
        PolicyModel { stats_blocked_today: m.stats_blocked_today + 1, ..m }
    } else {
        m
    }
}

impl PolicyConfig {
    /// Returns a consistent snapshot of the stored document.
    pub fn read(&self) -> (snapshot: PolicyConfig)
        ensures
            snapshot@ == self@,
    {
        let domains = self.blocked_domains.clone();
        proof {
            assert forall|i: int| 0 <= i < domains@.len() implies domains@[i]
                == self.blocked_domains@[i] by {
                assert(cloned::<String>(self.blocked_domains@[i], domains@[i]));
            }
            assert(domains.deep_view() =~= self.blocked_domains.deep_view());
        }
        PolicyConfig { blocked_domains: domains, stats_blocked_today: self.stats_blocked_today }
    }

    /// Atomically overwrites the whole stored document; no validation of
    /// content (empty lists, duplicates and malformed strings are accepted).
    pub fn replace(&mut self, new_policy: PolicyConfig)
        ensures
            final(self)@ == new_policy@,
    {
        *self = new_policy;
    }

    /// One exclusive read-modify-write: classify `host` against the current
    /// blocklist and, on Block, raise the counter by exactly one.
    pub fn classify_and_count(&mut self, host: &str) -> (d: Decision)
        requires
            old(self).stats_blocked_today < u64::MAX,
        ensures
            d == spec_classify(host@, old(self)@.blocked_domains),
            final(self)@ == spec_step(old(self)@, host@),
    {
        let d = classify(host, &self.blocked_domains);
        if d == Decision::Block {
            self.stats_blocked_today = self.stats_blocked_today + 1;
        }
        proof {
            assert(self@ =~= spec_step(old(self)@, host@));
        }
        d
    }
}

/// The policy installed at process start: the counter at zero and a single
/// well-known entry on the blocklist.
pub fn default_policy() -> (p: PolicyConfig)
    ensures
        p@.blocked_domains == seq!["tiktok.com"@],
        p@.stats_blocked_today == 0,
{
    let mut domains: Vec<String> = Vec::new();
    domains.push(String::from_str("tiktok.com"));
    proof {
        assert(domains.deep_view() =~= seq!["tiktok.com"@]);
    }
    PolicyConfig { blocked_domains: domains, stats_blocked_today: 0 }
}

/// One serialized operation on the store, in the order the exclusive lock
/// admits them.
pub enum PolicyOp {
    Classify(Seq<char>),
    Replace(PolicyModel),
}

/// The document after one serialized operation.
pub open spec fn apply_op(m: PolicyModel, op: PolicyOp) -> PolicyModel {
    match op {
        PolicyOp::Classify(host) => spec_step(m, host),
        PolicyOp::Replace(posted) => posted,
    }
}

/// The document after a whole serialized history of operations.
pub open spec fn apply_ops(m: PolicyModel, ops: Seq<PolicyOp>) -> PolicyModel
    decreases ops.len(),
{
    if ops.len() == 0 {
        m
    } else {
        apply_ops(apply_op(m, ops.first()), ops.drop_first())
    }
}

/// How many of `hosts` the blocklist `domains` classifies as Block.
pub open spec fn count_blocked(hosts: Seq<Seq<char>>, domains: Seq<Seq<char>>) -> nat
    decreases hosts.len(),
{
    if hosts.len() == 0 {
        0
    } else {
        (if spec_blocked(hosts.first(), domains) {
            1nat
        } else {
            0nat
        }) + count_blocked(hosts.drop_first(), domains)
    }
}

/// The history made of classifications only, one per host.
pub open spec fn classify_ops(hosts: Seq<Seq<char>>) -> Seq<PolicyOp> {
    hosts.map_values(|h: Seq<char>| PolicyOp::Classify(h))
}

/// Law: classification is Block exactly when some configured domain is a
/// substring of the host, and Allow otherwise.
pub proof fn lemma_classify_iff(host: Seq<char>, domains: Seq<Seq<char>>)
    ensures
        (spec_classify(host, domains) == Decision::Block) <==> spec_blocked(host, domains),
        (spec_classify(host, domains) == Decision::Allow) <==> !spec_blocked(host, domains),
{
}

/// Law: a run of classifications never touches the blocklist and raises the
/// counter by exactly the number of Block outcomes in the run.
pub proof fn lemma_classify_run(m: PolicyModel, hosts: Seq<Seq<char>>)
    ensures
        apply_ops(m, classify_ops(hosts)).blocked_domains == m.blocked_domains,
        apply_ops(m, classify_ops(hosts)).stats_blocked_today == m.stats_blocked_today
            + count_blocked(hosts, m.blocked_domains),
    decreases hosts.len(),
{
    if hosts.len() == 0 {
        assert(classify_ops(hosts) =~= Seq::<PolicyOp>::empty());
    } else {
        let stepped = spec_step(m, hosts.first());
        assert(classify_ops(hosts).first() == PolicyOp::Classify(hosts.first()));
        assert(classify_ops(hosts).drop_first() =~= classify_ops(hosts.drop_first()));
        lemma_classify_run(stepped, hosts.drop_first());
    }
}

proof fn lemma_count_blocked_all(hosts: Seq<Seq<char>>, domains: Seq<Seq<char>>)
    requires
        forall|i: int| 0 <= i < hosts.len() ==> spec_blocked(#[trigger] hosts[i], domains),
    ensures
        count_blocked(hosts, domains) == hosts.len(),
    decreases hosts.len(),
{
    if hosts.len() > 0 {
        assert(hosts.first() == hosts[0]);
        assert forall|i: int| 0 <= i < hosts.drop_first().len() implies spec_blocked(
            #[trigger] hosts.drop_first()[i],
            domains,
        ) by {
            assert(hosts.drop_first()[i] == hosts[i + 1]);
        }
        lemma_count_blocked_all(hosts.drop_first(), domains);
    }
}

/// Law: after a run of classifications whose hosts all match the blocklist,
/// with no intervening replacement, the counter has grown by exactly the
/// length of the run.
pub proof fn lemma_sequential_blocks(m: PolicyModel, hosts: Seq<Seq<char>>)
    requires
        forall|i: int| 0 <= i < hosts.len() ==> spec_blocked(#[trigger] hosts[i], m.blocked_domains),
    ensures
        apply_ops(m, classify_ops(hosts)).stats_blocked_today == m.stats_blocked_today
            + hosts.len(),
        apply_ops(m, classify_ops(hosts)).blocked_domains == m.blocked_domains,
{
    lemma_classify_run(m, hosts);
    lemma_count_blocked_all(hosts, m.blocked_domains);
}

/// Splitting a serialized history: running a concatenation is running the two
/// parts in turn.
pub proof fn lemma_apply_ops_concat(m: PolicyModel, a: Seq<PolicyOp>, b: Seq<PolicyOp>)
    ensures
        apply_ops(m, a + b) == apply_ops(apply_ops(m, a), b),
    decreases a.len(),
{
    if a.len() == 0 {
        assert(a + b =~= b);
    } else {
        assert((a + b).first() == a.first());
        assert((a + b).drop_first() =~= a.drop_first() + b);
        lemma_apply_ops_concat(apply_op(m, a.first()), a.drop_first(), b);
    }
}

/// Law: a replacement takes effect at once — it installs the posted document
/// wholesale; an empty blocklist then allows every host, and a list holding a
/// domain that is a substring of the host blocks that host.
pub proof fn lemma_replacement_effect(m: PolicyModel, posted: PolicyModel, host: Seq<char>)
    ensures
        apply_op(m, PolicyOp::Replace(posted)) == posted,
        posted.blocked_domains.len() == 0 ==> spec_classify(host, posted.blocked_domains)
            == Decision::Allow,
        (exists|k: int|
            0 <= k < posted.blocked_domains.len() && is_substring(
                #[trigger] posted.blocked_domains[k],
                host,
            )) ==> spec_classify(host, posted.blocked_domains) == Decision::Block,
{
}

/// Law (round-trip identity): a snapshot taken right after a replacement is a
/// document equal to the one posted. The two premises are exactly what
/// `replace` ensures of the store and what `read` ensures of its result, so
/// reading back immediately after posting returns the posted document.
pub proof fn lemma_get_after_post(
    posted: PolicyConfig,
    stored: PolicyConfig,
    snapshot: PolicyConfig,
)
    requires
        stored@ == posted@,
        snapshot@ == stored@,
    ensures
        snapshot@ == posted@,
{
}

/// Law (no lost updates): for any serialization of classifications around one
/// replacement, the final blocklist is the posted one and the final counter is
/// the posted counter plus exactly the Block outcomes that came after the
/// replacement — classifications before it are never counted against the new
/// document, and none of those after it is lost.
pub proof fn lemma_no_lost_updates(
    m: PolicyModel,
    before: Seq<Seq<char>>,
    posted: PolicyModel,
    after: Seq<Seq<char>>,
)
    ensures
        ({
            let fin = apply_ops(
                m,
                classify_ops(before) + seq![PolicyOp::Replace(posted)] + classify_ops(after),
            );
            &&& fin.blocked_domains == posted.blocked_domains
            &&& fin.stats_blocked_today == posted.stats_blocked_today + count_blocked(
                after,
                posted.blocked_domains,
            )
        }),
{
    let mid = apply_ops(m, classify_ops(before));
    lemma_apply_ops_concat(m, classify_ops(before) + seq![PolicyOp::Replace(posted)], classify_ops(after));
    lemma_apply_ops_concat(m, classify_ops(before), seq![PolicyOp::Replace(posted)]);
    let single = seq![PolicyOp::Replace(posted)];
    assert(single.first() == PolicyOp::Replace(posted));
    assert(single.drop_first() =~= Seq::<PolicyOp>::empty());
    assert(apply_ops(mid, single) == apply_ops(posted, single.drop_first()));
    assert(apply_ops(mid, single) == posted);
    lemma_classify_run(posted, after);
}

} // verus!
