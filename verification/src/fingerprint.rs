//! The settings that define a spawned backend process.

use vstd::prelude::*;
use vstd::relations::{sorted_by, total_ordering};
use vstd::seq_lib::lemma_sorted_unique;
use crate::config::ModelConfig;
use crate::text::{
    cat3, contains, lemma_replace_absent, lemma_replace_one, replace, replace_str, same_text,
};

verus! {

/// What a running instance was launched with: the command line with its
/// fragments resolved, the device pools regardless of order, the number of
/// devices, the declared VRAM and the context length.
#[derive(Debug)]
pub struct Fingerprint {
    pub cmd: String,
    pub devices: Vec<usize>,
    pub cuda_devices: Vec<usize>,
    pub gpus: usize,
    pub vram: u64,
    pub context_length: usize,
}

/// The values that a fingerprint is compared by.
pub struct FingerprintView {
    pub cmd: Seq<char>,
    pub devices: Seq<usize>,
    pub cuda_devices: Seq<usize>,
    pub gpus: usize,
    pub vram: u64,
    pub context_length: usize,
}

impl View for Fingerprint {
    type V = FingerprintView;

    open spec fn view(&self) -> FingerprintView {
        FingerprintView {
            cmd: self.cmd@,
            devices: self.devices@,
            cuda_devices: self.cuda_devices@,
            gpus: self.gpus,
            vram: self.vram,
            context_length: self.context_length,
        }
    }
}

/// A fragment's placeholder.
pub open spec fn placeholder(key: Seq<char>) -> Seq<char> {
    "{"@ + key + "}"@
}

/// The command with the first `n` fragments substituted, in order.
pub open spec fn with_fragments(cmd: Seq<char>, fragments: Seq<(String, String)>, n: int) -> Seq<
    char,
>
    decreases n,
{
    if n <= 0 {
        cmd
    } else {
        replace(
            with_fragments(cmd, fragments, n - 1),
            placeholder(fragments[n - 1].0@),
            fragments[n - 1].1@,
        )
    }
}

/// Substitutes every fragment into a command.
pub fn substitute_fragments(cmd: &str, fragments: &Vec<(String, String)>) -> (r: String)
    ensures
        r@ == with_fragments(cmd@, fragments@, fragments@.len() as int),
{
    let mut resolved = cmd.to_owned();
    for i in 0..fragments.len()
        invariant
            resolved@ == with_fragments(cmd@, fragments@, i as int),
    {
        let mark = cat3("{", fragments[i].0.as_str(), "}");
        proof {
            reveal_strlit("{");
        }
        resolved = replace_str(resolved.as_str(), mark.as_str(), fragments[i].1.as_str());
    }
    resolved
}

/// Ascending order of indices.
pub open spec fn ascending(s: Seq<usize>) -> bool {
    forall|i: int, j: int| 0 <= i < j < s.len() ==> s[i] <= s[j]
}

/// `r` holds what `s` holds, in ascending order.
pub open spec fn is_sorted_form(r: Seq<usize>, s: Seq<usize>) -> bool {
    ascending(r) && r.to_multiset() == s.to_multiset()
}

/// Sorts a copy of the indices.
pub fn sorted_copy(v: &Vec<usize>) -> (r: Vec<usize>)
    ensures
        is_sorted_form(r@, v@),
{
    let mut out: Vec<usize> = Vec::new();
    proof {
        assert(out@ =~= v@.take(0));
    }
    for i in 0..v.len()
        invariant
            ascending(out@),
            out@.to_multiset() == v@.take(i as int).to_multiset(),
    {
        let x: usize = v[i];
        let mut p: usize = out.len();
        while p > 0 && out[p - 1] > x
            invariant
                p <= out@.len(),
                forall|j: int| p <= j < out@.len() ==> out@[j] > x,
            decreases p,
        {
            p -= 1;
        }
        let ghost before = out@;
        out.insert(p, x);
        proof {
            assert(ascending(out@)) by {
                assert forall|a: int, b: int| 0 <= a < b < out@.len() implies out@[a] <= out@[b] by {
                    if b < p {
                        assert(before[a] <= before[b]);
                    } else if b == p {
                        assert(before[a] <= before[p - 1]);
                    } else if a == p {
                    } else if a < p {
                        assert(before[a] <= before[b - 1]);
                    } else {
                        assert(before[a - 1] <= before[b - 1]);
                    }
                }
            }
            broadcast use vstd::seq_lib::group_to_multiset_ensures;
            before.to_multiset_ensures();
            assert(out@ =~= before.insert(p as int, x));
            assert(v@.take(i + 1) =~= v@.take(i as int).push(x));
        }
    }
    assert(v@.take(v@.len() as int) =~= v@);
    out
}

/// Two ascending sequences with the same members are equal.
pub proof fn lemma_sorted_form_unique(a: Seq<usize>, b: Seq<usize>, s: Seq<usize>, t: Seq<usize>)
    requires
        is_sorted_form(a, s),
        is_sorted_form(b, t),
        s.to_multiset() == t.to_multiset(),
    ensures
        a == b,
{
    let leq = |x: usize, y: usize| x <= y;
    assert(sorted_by(a, leq));
    assert(sorted_by(b, leq));
    assert(total_ordering(leq));
    lemma_sorted_unique(a, b, leq);
}

/// `f` is the fingerprint of a model under the given fragments.
pub open spec fn is_fingerprint(
    f: FingerprintView,
    fragments: Seq<(String, String)>,
    cfg: ModelConfig,
) -> bool {
    &&& f.cmd == with_fragments(cfg.cmd@, fragments, fragments.len() as int)
    &&& is_sorted_form(f.devices, cfg.vulkan_devices@)
    &&& is_sorted_form(f.cuda_devices, cfg.cuda_devices@)
    &&& f.gpus == cfg.gpus
    &&& f.vram == cfg.vram
    &&& f.context_length == cfg.context_length
}

/// Computes the fingerprint of a model's spawn-relevant settings. The port is
/// left out, as it differs per instance.
pub fn fingerprint_with_aliases(fragments: &Vec<(String, String)>, cfg: &ModelConfig) -> (r:
    Fingerprint)
    ensures
        is_fingerprint(r@, fragments@, *cfg),
{
    Fingerprint {
        cmd: substitute_fragments(cfg.cmd.as_str(), fragments),
        devices: sorted_copy(&cfg.vulkan_devices),
        cuda_devices: sorted_copy(&cfg.cuda_devices),
        gpus: cfg.gpus,
        vram: cfg.vram,
        context_length: cfg.context_length,
    }
}

/// Whether two lists of indices are equal.
pub fn same_indices(a: &Vec<usize>, b: &Vec<usize>) -> (r: bool)
    ensures
        r == (a@ == b@),
{
    if a.len() != b.len() {
        return false;
    }
    for i in 0..a.len()
        invariant
            a@.len() == b@.len(),
            forall|j: int| 0 <= j < i ==> a@[j] == b@[j],
    {
        if a[i] != b[i] {
            return false;
        }
    }
    assert(a@ =~= b@);
    true
}

impl Fingerprint {
    /// Whether two fingerprints are equal.
    pub fn same(&self, other: &Fingerprint) -> (r: bool)
        ensures
            r == (self@ == other@),
    {
        self.gpus == other.gpus && self.vram == other.vram && self.context_length
            == other.context_length && same_text(self.cmd.as_str(), other.cmd.as_str())
            && same_indices(&self.devices, &other.devices) && same_indices(
            &self.cuda_devices,
            &other.cuda_devices,
        )
    }
}

/// Two models have one fingerprint exactly when all that is compared agrees;
/// settings that only concern routing do not matter, nor does the order of
/// the devices.
pub proof fn law_fingerprint_compares_spawn_settings(
    f: FingerprintView,
    g: FingerprintView,
    fragments: Seq<(String, String)>,
    others: Seq<(String, String)>,
    a: ModelConfig,
    b: ModelConfig,
)
    requires
        is_fingerprint(f, fragments, a),
        is_fingerprint(g, others, b),
    ensures
        f == g <==> {
            &&& with_fragments(a.cmd@, fragments, fragments.len() as int) == with_fragments(
                b.cmd@,
                others,
                others.len() as int,
            )
            &&& a.vulkan_devices@.to_multiset() == b.vulkan_devices@.to_multiset()
            &&& a.cuda_devices@.to_multiset() == b.cuda_devices@.to_multiset()
            &&& a.gpus == b.gpus
            &&& a.vram == b.vram
            &&& a.context_length == b.context_length
        },
{
    if a.vulkan_devices@.to_multiset() == b.vulkan_devices@.to_multiset() {
        lemma_sorted_form_unique(f.devices, g.devices, a.vulkan_devices@, b.vulkan_devices@);
    }
    if a.cuda_devices@.to_multiset() == b.cuda_devices@.to_multiset() {
        lemma_sorted_form_unique(f.cuda_devices, g.cuda_devices, a.cuda_devices@, b.cuda_devices@);
    }
}

/// A fragment whose placeholder does not occur in a command does not change
/// it, so it does not change the fingerprint either.
pub proof fn law_unused_fragment_changes_nothing(
    cmd: Seq<char>,
    fragments: Seq<(String, String)>,
    unused: (String, String),
)
    requires
        !contains(
            with_fragments(cmd, fragments, fragments.len() as int),
            placeholder(unused.0@),
        ),
    ensures
        with_fragments(cmd, fragments.push(unused), fragments.len() as int + 1) == with_fragments(
            cmd,
            fragments,
            fragments.len() as int,
        ),
{
    let n = fragments.len() as int;
    lemma_same_fragments(cmd, fragments, fragments.push(unused), n);
    assert(fragments.push(unused)[n] == unused);
    lemma_replace_absent(
        with_fragments(cmd, fragments, n),
        placeholder(unused.0@),
        unused.1@,
    );
}

proof fn lemma_same_fragments(
    cmd: Seq<char>,
    a: Seq<(String, String)>,
    b: Seq<(String, String)>,
    n: int,
)
    requires
        0 <= n <= a.len(),
        n <= b.len(),
        forall|i: int| 0 <= i < n ==> a[i] == b[i],
    ensures
        with_fragments(cmd, a, n) == with_fragments(cmd, b, n),
    decreases n,
{
    if n > 0 {
        lemma_same_fragments(cmd, a, b, n - 1);
    }
}

/// A fragment is filled in where its name stands in braces, and fragments are
/// filled in one after the other.
pub proof fn law_fragments_are_filled_in(
    cmd: Seq<char>,
    fragments: Seq<(String, String)>,
    fragment: (String, String),
    before: Seq<char>,
    after: Seq<char>,
)
    requires
        with_fragments(cmd, fragments, fragments.len() as int) == before + ("{"@ + fragment.0@
            + "}"@) + after,
        forall|i: int| 0 <= i < before.len() ==> before[i] != '{',
        forall|i: int| 0 <= i < after.len() ==> after[i] != '{',
    ensures
        with_fragments(cmd, fragments.push(fragment), fragments.len() as int + 1) == before
            + fragment.1@ + after,
        with_fragments(cmd, Seq::empty(), 0) == cmd,
{
    reveal_strlit("{");
    let n = fragments.len() as int;
    let mark = "{"@ + fragment.0@ + "}"@;
    assert(mark[0] == '{');
    lemma_same_fragments(cmd, fragments, fragments.push(fragment), n);
    assert(fragments.push(fragment)[n] == fragment);
    lemma_replace_one(before, mark, after, fragment.1@);
}

/// What a fingerprint holds: the command with its fragments, the devices in
/// ascending order, and the numbers that a launch depends on.
pub proof fn law_what_a_fingerprint_holds(
    f: FingerprintView,
    fragments: Seq<(String, String)>,
    cfg: ModelConfig,
    i: int,
    j: int,
)
    requires
        is_fingerprint(f, fragments, cfg),
    ensures
        f.cmd == with_fragments(cfg.cmd@, fragments, fragments.len() as int),
        f.gpus == cfg.gpus,
        f.vram == cfg.vram,
        f.context_length == cfg.context_length,
        f.devices.to_multiset() == cfg.vulkan_devices@.to_multiset(),
        f.cuda_devices.to_multiset() == cfg.cuda_devices@.to_multiset(),
        0 <= i < j < f.devices.len() ==> f.devices[i] <= f.devices[j],
        0 <= i < j < f.cuda_devices.len() ==> f.cuda_devices[i] <= f.cuda_devices[j],
{
}

} // verus!
