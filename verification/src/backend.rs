//! Backends: device selection on the command line and in the environment,
//! CPU-offload flags, captured output, readiness and shutdown.

use std::collections::VecDeque;
use vstd::prelude::*;
use vstd::slice::slice_subrange;
use crate::instance::{comma_list, decimals};
use crate::numbers::{
    decimal, digit_value, digits_value, law_signed_reads_back, lemma_digits_prefix, parse_i64,
    signed, signed_decimal, to_decimal,
};
use crate::text::{
    cat, cat3, chars_at, chars_of, find, find_char, join, join_strings, lemma_find_from,
    lemma_find_is, occurs_at, starts_with, texts,
};

verus! {

// ── Backend trait ───────────────────────────────────────────────────────────

/// The health-check address of a backend listening on `port`.
pub open spec fn health_address(port: u16) -> Seq<char> {
    "http://127.0.0.1:"@ + decimal(port as nat) + "/health"@
}

/// What a backend implementation needs to provide.
pub trait Backend {
    /// CLI arguments injected for GPU device selection.
    fn gpu_args(&self, indices: &[usize]) -> Vec<String>;

    /// Environment variables set for GPU device selection.
    fn gpu_env(&self, indices: &[usize]) -> Vec<(String, String)>;

    /// Health-check URL for a backend listening on `port`.
    fn health_url(&self, port: u16) -> (r: String)
        default_ensures
            r@ == health_address(port),
    {
        cat3("http://127.0.0.1:", to_decimal(port as u64).as_str(), "/health")
    }
}

/// Device namespace a llama.cpp build uses for GPU selection.
#[derive(Debug, Clone, Copy, PartialEq, Eq, Structural)]
pub enum DeviceKind {
    /// Vulkan backend, pinned via `GGML_VK_VISIBLE_DEVICES`.
    Vulkan,
    /// CUDA backend, pinned via `CUDA_VISIBLE_DEVICES`.
    Cuda,
    /// ROCm/HIP backend, pinned via `HIP_VISIBLE_DEVICES`.
    Rocm,
}

impl Default for DeviceKind {
    fn default() -> (r: DeviceKind)
        ensures
            r == DeviceKind::Vulkan,
    {
        DeviceKind::Vulkan
    }
}

/// Backend for llama.cpp built with Vulkan, ROCm, or CUDA. The order of the
/// indices is preserved: it has semantics in llama.cpp.
pub struct LlamaCppBackend {
    kind: DeviceKind,
}

impl Default for LlamaCppBackend {
    fn default() -> (r: LlamaCppBackend)
        ensures
            r.namespace() == DeviceKind::Vulkan,
    {
        LlamaCppBackend { kind: DeviceKind::Vulkan }
    }
}

/// The variable that pins devices of a namespace.
pub open spec fn visible_devices_var(kind: DeviceKind) -> Seq<char> {
    match kind {
        DeviceKind::Vulkan => "GGML_VK_VISIBLE_DEVICES"@,
        DeviceKind::Cuda => "CUDA_VISIBLE_DEVICES"@,
        DeviceKind::Rocm => "HIP_VISIBLE_DEVICES"@,
    }
}

/// The names of the first `n` visible ROCm devices. Pinning renumbers the
/// devices, so these are ranks and not host indices.
pub open spec fn rocm_names(n: nat) -> Seq<Seq<char>> {
    Seq::new(n, |rank: int| "ROCm"@ + decimal(rank as nat))
}

/// The arguments that select devices.
pub open spec fn device_args(kind: DeviceKind, indices: Seq<usize>) -> Seq<Seq<char>> {
    if kind != DeviceKind::Rocm || indices.len() == 0 {
        Seq::empty()
    } else {
        seq!["--device"@, join(rocm_names(indices.len()), ","@)]
    }
}

/// The environment that selects devices.
pub open spec fn device_env(kind: DeviceKind, indices: Seq<usize>) -> Seq<(Seq<char>, Seq<char>)> {
    if indices.len() == 0 {
        Seq::empty()
    } else {
        seq![(visible_devices_var(kind), join(decimals(indices), ","@))]
    }
}

/// Name and value texts of an environment.
pub open spec fn env_texts(env: Seq<(String, String)>) -> Seq<(Seq<char>, Seq<char>)> {
    env.map_values(|e: (String, String)| (e.0@, e.1@))
}

impl LlamaCppBackend {
    /// The namespace that this backend selects devices in.
    pub closed spec fn namespace(&self) -> DeviceKind {
        self.kind
    }

    /// A backend for the given namespace.
    pub fn new(kind: DeviceKind) -> (r: LlamaCppBackend)
        ensures
            r.namespace() == kind,
    {
        LlamaCppBackend { kind }
    }
}

impl Backend for LlamaCppBackend {
    fn gpu_args(&self, indices: &[usize]) -> (r: Vec<String>)
        ensures
            texts(r@) == device_args(self.namespace(), indices@),
    {
        let mut out: Vec<String> = Vec::new();
        if self.kind != DeviceKind::Rocm || indices.len() == 0 {
            assert(texts(out@) =~= Seq::<Seq<char>>::empty());
            return out;
        }
        let mut names: Vec<String> = Vec::new();
        assert(texts(names@) =~= rocm_names(0));
        for rank in 0..indices.len()
            invariant
                texts(names@) == rocm_names(rank as nat),
        {
            let ghost before = names@;
            names.push(cat("ROCm", to_decimal(rank as u64).as_str()));
            assert(texts(names@) =~= texts(before).push("ROCm"@ + decimal(rank as nat)));
            assert(rocm_names((rank + 1) as nat) =~= rocm_names(rank as nat).push(
                "ROCm"@ + decimal(rank as nat),
            ));
        }
        let list = join_strings(&names, ",");
        out.push("--device".to_owned());
        out.push(list);
        assert(texts(out@) =~= seq!["--device"@, list@]);
        out
    }

    fn gpu_env(&self, indices: &[usize]) -> (r: Vec<(String, String)>)
        ensures
            env_texts(r@) == device_env(self.namespace(), indices@),
    {
        let mut out: Vec<(String, String)> = Vec::new();
        if indices.len() == 0 {
            assert(env_texts(out@) =~= Seq::<(Seq<char>, Seq<char>)>::empty());
            return out;
        }
        let var = match self.kind {
            DeviceKind::Vulkan => "GGML_VK_VISIBLE_DEVICES",
            DeviceKind::Cuda => "CUDA_VISIBLE_DEVICES",
            DeviceKind::Rocm => "HIP_VISIBLE_DEVICES",
        };
        let list = comma_list(indices);
        out.push((var.to_owned(), list));
        assert(env_texts(out@) =~= seq![(var@, list@)]);
        out
    }
}

// ── CPU-offload enforcement ─────────────────────────────────────────────────

/// The outcome of scanning a llama.cpp command line (program excluded) for an
/// explicit GPU-offload declaration.
#[derive(Debug, Clone, Copy, PartialEq, Eq, Structural)]
pub enum OffloadDecl {
    /// No offload flag in the command line.
    Absent,
    /// Offload flag with a layer count (`-1` is "as much as fits").
    Layers(i64),
    /// Offload flag present, but its value is missing or not an integer.
    Invalid,
}

/// The offload-layer flags.
pub open spec fn is_offload_flag(s: Seq<char>) -> bool {
    s == "--n-gpu-layers"@ || s == "-ngl"@ || s == "--n-offload"@
}

/// The declaration that a value makes.
pub open spec fn declared(value: Seq<char>) -> OffloadDecl {
    match signed(value) {
        Some(n) => OffloadDecl::Layers(n as i64),
        None => OffloadDecl::Invalid,
    }
}

/// What the argument at `i` declares, and how many arguments that takes: a
/// flag has its value after `=` or, if it is an integer, in the next argument.
pub open spec fn offload_token(args: Seq<Seq<char>>, i: int) -> (Option<OffloadDecl>, int) {
    match find(args[i], seq!['=']) {
        Some(p) => if is_offload_flag(args[i].take(p)) {
            (Some(declared(args[i].skip(p + 1))), 1)
        } else {
            (None, 1)
        },
        None => if !is_offload_flag(args[i]) {
            (None, 1)
        } else if i + 1 < args.len() && signed(args[i + 1]) is Some {
            (Some(declared(args[i + 1])), 2)
        } else {
            (Some(OffloadDecl::Invalid), 1)
        },
    }
}

/// The last declaration at or after `i`.
pub open spec fn last_offload(args: Seq<Seq<char>>, i: int) -> Option<OffloadDecl>
    decreases args.len() - i,
{
    if i < 0 || i >= args.len() {
        None
    } else {
        let (decl, taken) = offload_token(args, i);
        match last_offload(
            args,
            i + if taken > 1 {
                taken
            } else {
                1
            },
        ) {
            Some(d) => Some(d),
            None => decl,
        }
    }
}

/// The declaration of a command line; the last one wins.
pub open spec fn offload_decl(args: Seq<Seq<char>>) -> OffloadDecl {
    match last_offload(args, 0) {
        Some(d) => d,
        None => OffloadDecl::Absent,
    }
}

fn is_flag(s: &[char]) -> (r: bool)
    ensures
        r == is_offload_flag(s@),
{
    let a = chars_of("--n-gpu-layers");
    let b = chars_of("-ngl");
    let c = chars_of("--n-offload");
    same_chars(s, a.as_slice()) || same_chars(s, b.as_slice()) || same_chars(s, c.as_slice())
}

fn same_chars(a: &[char], b: &[char]) -> (r: bool)
    ensures
        r == (a@ == b@),
{
    if a.len() != b.len() {
        return false;
    }
    let r = chars_at(a, b, 0);
    assert(a@.subrange(0, b@.len() as int) =~= a@);
    r
}

fn declare(value: &[char]) -> (r: OffloadDecl)
    ensures
        r == declared(value@),
{
    match parse_i64(value) {
        Some(n) => OffloadDecl::Layers(n),
        None => OffloadDecl::Invalid,
    }
}

/// Scans arguments (the command line without the program) for an explicit
/// GPU-offload declaration.
pub fn llama_offload_decl(args: &[String]) -> (r: OffloadDecl)
    ensures
        r == offload_decl(texts(args@)),
{
    let ghost all = texts(args@);
    let mut last: Option<OffloadDecl> = None;
    let mut i: usize = 0;
    let n: usize = args.len();
    while i < n
        invariant
            n == args@.len(),
            i <= n,
            all == texts(args@),
            offload_decl(all) == (match last_offload(all, i as int) {
                Some(d) => d,
                None => match last {
                    Some(d) => d,
                    None => OffloadDecl::Absent,
                },
            }),
        decreases n - i,
    {
        let arg = chars_of(args[i].as_str());
        assert(all[i as int] == arg@);
        let len: usize = arg.len();
        match find_char(arg.as_slice(), '=') {
            Some(p) => {
                let flag = slice_subrange(arg.as_slice(), 0, p);
                let value = slice_subrange(arg.as_slice(), p + 1, len);
                assert(flag@ =~= arg@.take(p as int));
                assert(value@ =~= arg@.skip(p + 1));
                if is_flag(flag) {
                    last = Some(declare(value));
                }
                i += 1;
            },
            None => {
                if is_flag(arg.as_slice()) {
                    if i + 1 < n {
                        let next = chars_of(args[i + 1].as_str());
                        assert(all[i + 1] == next@);
                        match parse_i64(next.as_slice()) {
                            Some(v) => {
                                last = Some(OffloadDecl::Layers(v));
                                i += 2;
                            },
                            None => {
                                last = Some(OffloadDecl::Invalid);
                                i += 1;
                            },
                        }
                    } else {
                        last = Some(OffloadDecl::Invalid);
                        i += 1;
                    }
                } else {
                    i += 1;
                }
            },
        }
    }
    match last {
        Some(d) => d,
        None => OffloadDecl::Absent,
    }
}

/// An offload flag is no number, nor is one with something after it.
proof fn lemma_numbers_are_no_flags(s: Seq<char>, p: int)
    requires
        0 <= p <= s.len(),
        is_offload_flag(s.take(p)),
    ensures
        signed(s) is None,
{
    reveal_strlit("--n-gpu-layers");
    reveal_strlit("-ngl");
    reveal_strlit("--n-offload");
    let flag = s.take(p);
    assert(flag.len() == p);
    assert(flag.len() >= 4);
    assert(s[0] == flag[0]);
    assert(s[1] == flag[1]);
    let digits = s.skip(1);
    assert(digits.take(1) =~= seq![s[1]]);
    assert(seq![s[1]].drop_last() =~= Seq::<char>::empty());
    assert(digit_value(s[1], 10) is None);
    assert(digits_value(digits.take(1), 10) is None);
    lemma_digits_prefix(digits, 1, 10);
}

proof fn lemma_flag_has_no_equals(s: Seq<char>)
    requires
        is_offload_flag(s),
    ensures
        forall|i: int| 0 <= i < s.len() ==> s[i] != '=',
        s.len() > 0,
{
    reveal_strlit("--n-gpu-layers");
    reveal_strlit("-ngl");
    reveal_strlit("--n-offload");
}

proof fn lemma_offload_of_tail(p: Seq<Seq<char>>, q: Seq<Seq<char>>, j: int)
    requires
        0 <= j <= q.len(),
    ensures
        last_offload(p + q, p.len() + j) == last_offload(q, j),
    decreases q.len() - j,
{
    let all = p + q;
    if j < q.len() {
        assert(all[p.len() + j] == q[j]);
        if j + 1 < q.len() {
            assert(all[p.len() + j + 1] == q[j + 1]);
            if j + 2 <= q.len() {
                lemma_offload_of_tail(p, q, j + 2);
            }
        }
        assert(offload_token(all, p.len() + j) == offload_token(q, j));
        lemma_offload_of_tail(p, q, j + 1);
    }
}

/// A number declares nothing by itself.
proof fn lemma_number_declares_nothing(q: Seq<Seq<char>>)
    requires
        q.len() > 0,
        signed(q[0]) is Some,
    ensures
        last_offload(q, 1) == last_offload(q, 0),
{
    let s = q[0];
    lemma_find_from(s, seq!['='], 0);
    if let Some(p) = find(s, seq!['=']) {
        if is_offload_flag(s.take(p)) {
            lemma_numbers_are_no_flags(s, p);
        }
    } else if is_offload_flag(s) {
        assert(s.take(s.len() as int) =~= s);
        lemma_numbers_are_no_flags(s, s.len() as int);
    }
    assert(offload_token(q, 0) == (None::<OffloadDecl>, 1int));
}

proof fn lemma_later_declaration(p: Seq<Seq<char>>, q: Seq<Seq<char>>, i: int)
    requires
        0 <= i <= p.len(),
        last_offload(q, 0) is Some,
    ensures
        last_offload(p + q, i) == last_offload(q, 0),
    decreases p.len() - i,
{
    let all = p + q;
    if i == p.len() {
        lemma_offload_of_tail(p, q, 0);
    } else {
        lemma_later_declaration(p, q, i + 1);
        let (decl, taken) = offload_token(all, i);
        if taken > 1 {
            if i + 2 <= p.len() {
                lemma_later_declaration(p, q, i + 2);
            } else {
                assert(all[i + 1] == q[0]);
                lemma_number_declares_nothing(q);
                lemma_offload_of_tail(p, q, 1);
            }
        }
    }
}

/// The last declaration wins: arguments that declare an offload decide,
/// whatever stands before them.
pub proof fn law_last_declaration_wins(p: Seq<Seq<char>>, q: Seq<Seq<char>>)
    requires
        offload_decl(q) != OffloadDecl::Absent,
    ensures
        offload_decl(p + q) == offload_decl(q),
{
    lemma_later_declaration(p, q, 0);
}

/// A number of layers that is written after a flag is read back, whether it
/// stands in an argument of its own or after `=`; a flag alone declares
/// something that cannot be read.
pub proof fn law_written_layers_read_back(flag: Seq<char>, n: i64)
    requires
        is_offload_flag(flag),
    ensures
        offload_decl(seq![flag, signed_decimal(n as int)]) == OffloadDecl::Layers(n),
        offload_decl(seq![flag + "="@ + signed_decimal(n as int)]) == OffloadDecl::Layers(n),
        offload_decl(seq![flag]) == OffloadDecl::Invalid,
{
    reveal_strlit("=");
    let number = signed_decimal(n as int);
    law_signed_reads_back(n);
    lemma_flag_has_no_equals(flag);
    lemma_find_from(flag, seq!['='], 0);
    if let Some(p) = find(flag, seq!['=']) {
        assert(flag.subrange(p, p + 1)[0] == flag[p]);
    }
    let two = seq![flag, number];
    assert(offload_token(two, 0) == (Some(OffloadDecl::Layers(n)), 2int));
    assert(last_offload(two, 2) is None);
    let s = flag + "="@ + number;
    let at = flag.len() as int;
    assert(s.subrange(at, at + 1) =~= seq!['=']);
    assert forall|j: int| 0 <= j < at implies !occurs_at(s, seq!['='], j) by {
        assert(s.subrange(j, j + 1)[0] == flag[j]);
    }
    lemma_find_is(s, seq!['='], at);
    assert(s.take(at) =~= flag);
    assert(s.skip(at + 1) =~= number);
    let one = seq![s];
    assert(offload_token(one, 0) == (Some(OffloadDecl::Layers(n)), 1int));
    assert(last_offload(one, 1) is None);
    let bare = seq![flag];
    assert(offload_token(bare, 0) == (Some(OffloadDecl::Invalid), 1int));
    assert(last_offload(bare, 1) is None);
}

/// What follows the last slash.
pub open spec fn basename(s: Seq<char>) -> Seq<char>
    decreases s.len(),
{
    if s.len() == 0 || s.last() == '/' {
        Seq::empty()
    } else {
        basename(s.drop_last()).push(s.last())
    }
}

/// The basename is a suffix.
proof fn lemma_basename(s: Seq<char>, k: int)
    requires
        0 <= k <= s.len(),
        forall|j: int| k <= j < s.len() ==> s[j] != '/',
        k == 0 || s[k - 1] == '/',
    ensures
        basename(s) == s.skip(k),
    decreases s.len(),
{
    if k == s.len() {
        assert(s.skip(k) =~= Seq::<char>::empty());
    } else {
        lemma_basename(s.drop_last(), k);
        assert(s.drop_last().skip(k).push(s.last()) =~= s.skip(k));
    }
}

/// A llama.cpp program: its basename starts with `llama-`.
pub open spec fn is_llama_program(program: Seq<char>) -> bool {
    starts_with(basename(program), "llama-"@)
}

/// Tells whether a program is one of llama.cpp's.
pub fn names_llama(program: &str) -> (r: bool)
    ensures
        r == is_llama_program(program@),
{
    let p = chars_of(program);
    let n: usize = p.len();
    let mut k: usize = n;
    while k > 0 && p[k - 1] != '/'
        invariant
            k <= n,
            n == p@.len(),
            forall|j: int| k <= j < n ==> p@[j] != '/',
        decreases k,
    {
        k -= 1;
    }
    proof {
        lemma_basename(p@, k as int);
    }
    let base = slice_subrange(p.as_slice(), k, n);
    assert(base@ =~= p@.skip(k as int));
    let prefix = chars_of("llama-");
    chars_at(base, prefix.as_slice(), 0)
}

/// The arguments of a launch without devices: a llama.cpp program that
/// declares no offload count is told to offload no layer.
pub open spec fn cpu_args(program: Seq<char>, args: Seq<Seq<char>>) -> Seq<Seq<char>> {
    if is_llama_program(program) && offload_decl(args) == OffloadDecl::Absent {
        args + seq!["--n-gpu-layers"@, "0"@]
    } else {
        args
    }
}

impl LlamaCppBackend {
    /// Enforces CPU-only execution for a deviceless llama.cpp spawn. An
    /// existing declaration and programs of other kinds are left untouched.
    pub fn enforce_cpu_offload(program: &str, args: &mut Vec<String>)
        ensures
            texts(final(args)@) == cpu_args(program@, texts(old(args)@)),
    {
        if !names_llama(program) {
            return;
        }
        if llama_offload_decl(args.as_slice()) != OffloadDecl::Absent {
            return;
        }
        let ghost before = args@;
        args.push("--n-gpu-layers".to_owned());
        args.push("0".to_owned());
        assert(texts(args@) =~= texts(before) + seq!["--n-gpu-layers"@, "0"@]);
    }
}

proof fn lemma_appended_declaration(args: Seq<Seq<char>>, i: int)
    requires
        0 <= i <= args.len(),
        last_offload(args, i) is None,
    ensures
        last_offload(args + seq!["--n-gpu-layers"@, "0"@], i) == Some(OffloadDecl::Layers(0)),
    decreases args.len() - i,
{
    let longer = args + seq!["--n-gpu-layers"@, "0"@];
    if i == args.len() {
        assert(longer[i] == "--n-gpu-layers"@);
        assert(find(longer[i], seq!['=']) is None) by {
            reveal_strlit("--n-gpu-layers");
            lemma_find_from(longer[i], seq!['='], 0);
            if let Some(p) = find(longer[i], seq!['=']) {
                assert(longer[i].subrange(p, p + 1)[0] == '=');
                assert(longer[i][p] == '=');
            }
        }
        assert(longer[i + 1] == "0"@);
        assert(signed("0"@) == Some(0int)) by {
            reveal_strlit("0");
            assert("0"@.drop_last() =~= Seq::<char>::empty());
            assert(digits_value("0"@.drop_last(), 10) == Some(0nat));
            assert(digit_value('0', 10) == Some(0nat));
        }
        assert(offload_token(longer, i) == (Some(OffloadDecl::Layers(0)), 2int));
        assert(last_offload(longer, i + 2) is None);
    } else {
        assert(longer[i] == args[i]);
        let (decl, taken) = offload_token(args, i);
        assert(decl is None);
        assert(taken == 1);
        assert(offload_token(longer, i) == (None::<OffloadDecl>, 1int));
        lemma_appended_declaration(args, i + 1);
    }
}

/// Enforcing CPU-only execution twice is the same as once: no flag is ever
/// declared a second time.
pub proof fn law_cpu_args_idempotent(program: Seq<char>, args: Seq<Seq<char>>)
    ensures
        cpu_args(program, cpu_args(program, args)) == cpu_args(program, args),
{
    if is_llama_program(program) && offload_decl(args) == OffloadDecl::Absent {
        if last_offload(args, 0) is None {
            lemma_appended_declaration(args, 0);
        }
        lemma_decl_not_absent(cpu_args(program, args), 0);
        lemma_decl_not_absent(args, 0);
    }
}

/// A llama.cpp program that is launched without devices offloads no layer,
/// unless its command asks for some, which no sound configuration does.
pub proof fn law_cpu_launch_offloads_nothing(program: Seq<char>, args: Seq<Seq<char>>)
    requires
        is_llama_program(program),
        offload_decl(args) == OffloadDecl::Absent || offload_decl(args) == OffloadDecl::Layers(0),
    ensures
        offload_decl(cpu_args(program, args)) == OffloadDecl::Layers(0),
{
    if offload_decl(args) == OffloadDecl::Absent {
        lemma_decl_not_absent(args, 0);
        lemma_appended_declaration(args, 0);
    }
}

proof fn lemma_decl_not_absent(args: Seq<Seq<char>>, i: int)
    ensures
        last_offload(args, i) != Some(OffloadDecl::Absent),
    decreases args.len() - i,
{
    if 0 <= i < args.len() {
        let (decl, taken) = offload_token(args, i);
        lemma_decl_not_absent(
            args,
            i + if taken > 1 {
                taken
            } else {
                1
            },
        );
    }
}

// ── Captured output ─────────────────────────────────────────────────────────

/// Most recent backend output lines kept per instance.
pub const OUTPUT_BUFFER_LINES: usize = 200;

/// Ring buffer of a backend process's recent stdout/stderr lines.
pub struct OutputBuffer {
    lines: VecDeque<String>,
}

/// The last `n` members of a sequence.
pub open spec fn last_of<T>(s: Seq<T>, n: nat) -> Seq<T> {
    if s.len() <= n {
        s
    } else {
        s.skip(s.len() - n)
    }
}

impl OutputBuffer {
    /// The kept lines, oldest first.
    pub closed spec fn kept(&self) -> Seq<Seq<char>> {
        texts(self.lines@)
    }

    /// No more lines are kept than the buffer holds.
    pub closed spec fn wf(&self) -> bool {
        self.lines@.len() <= OUTPUT_BUFFER_LINES
    }

    /// An empty buffer.
    pub fn new() -> (r: OutputBuffer)
        ensures
            r.wf(),
            r.kept().len() == 0,
    {
        OutputBuffer { lines: VecDeque::new() }
    }

    /// Adds one line of a stream; the oldest line leaves a full buffer.
    pub fn push_line(&mut self, stream_name: &str, line: &str)
        requires
            old(self).wf(),
        ensures
            final(self).wf(),
            final(self).kept() == last_of(
                old(self).kept().push(stream_name@ + "| "@ + line@),
                OUTPUT_BUFFER_LINES as nat,
            ),
    {
        let ghost before = self.lines@;
        if self.lines.len() >= OUTPUT_BUFFER_LINES {
            let _ = self.lines.pop_front();
        }
        let ghost shorter = self.lines@;
        let text = cat3(stream_name, "| ", line);
        self.lines.push_back(text);
        assert(texts(self.lines@) =~= texts(shorter).push(text@));
        assert(texts(self.lines@) =~= last_of(
            texts(before).push(text@),
            OUTPUT_BUFFER_LINES as nat,
        ));
    }
}

/// Snapshot of the buffered lines, oldest first.
pub fn output_lines(buf: &OutputBuffer) -> (r: Vec<String>)
    ensures
        texts(r@) == buf.kept(),
{
    let mut out: Vec<String> = Vec::new();
    for i in 0..buf.lines.len()
        invariant
            texts(out@) == texts(buf.lines@.take(i as int)),
    {
        let ghost before = out@;
        out.push(buf.lines[i].clone());
        assert(texts(out@) =~= texts(before).push(buf.lines@[i as int]@));
        assert(texts(buf.lines@.take(i + 1)) =~= texts(buf.lines@.take(i as int)).push(
            buf.lines@[i as int]@,
        ));
    }
    assert(buf.lines@.take(buf.lines@.len() as int) =~= buf.lines@);
    out
}

/// The lines that a buffer has after taking in `all`, one by one.
pub open spec fn kept_after(all: Seq<Seq<char>>) -> Seq<Seq<char>>
    decreases all.len(),
{
    if all.len() == 0 {
        Seq::empty()
    } else {
        last_of(kept_after(all.drop_last()).push(all.last()), OUTPUT_BUFFER_LINES as nat)
    }
}

/// Whatever was written, the buffer holds the most recent lines in order.
pub proof fn law_buffer_keeps_latest(all: Seq<Seq<char>>)
    ensures
        kept_after(all) == last_of(all, OUTPUT_BUFFER_LINES as nat),
    decreases all.len(),
{
    if all.len() > 0 {
        law_buffer_keeps_latest(all.drop_last());
        assert(kept_after(all) =~= last_of(all, OUTPUT_BUFFER_LINES as nat));
    } else {
        assert(kept_after(all) =~= last_of(all, OUTPUT_BUFFER_LINES as nat));
    }
}

// ── Readiness ───────────────────────────────────────────────────────────────

/// Outcome of a readiness poll phase.
#[derive(Debug, Clone, Copy, PartialEq, Eq, Structural)]
pub enum ReadyOutcome {
    /// The health check returned success.
    Ready,
    /// The child process exited before becoming healthy.
    ChildExited,
    /// Neither ready nor dead within the deadline.
    TimedOut,
}

/// What a readiness poll does next.
#[derive(Debug, Clone, Copy, PartialEq, Eq, Structural)]
pub enum PollStep {
    /// The poll is over.
    Done(ReadyOutcome),
    /// Ask the health endpoint.
    Probe,
    /// Wait a moment, then begin again.
    Wait,
}

/// Decides before a probe: the deadline comes first, then a dead child.
/// `child_exited` is none where the instance has no child.
pub fn before_probe(elapsed: u64, timeout: u64, child_exited: Option<bool>) -> (r: PollStep)
    ensures
        r == (if elapsed >= timeout {
            PollStep::Done(ReadyOutcome::TimedOut)
        } else if child_exited == Some(true) {
            PollStep::Done(ReadyOutcome::ChildExited)
        } else {
            PollStep::Probe
        }),
{
    if elapsed >= timeout {
        return PollStep::Done(ReadyOutcome::TimedOut);
    }
    match child_exited {
        Some(exited) => {
            if exited {
                PollStep::Done(ReadyOutcome::ChildExited)
            } else {
                PollStep::Probe
            }
        },
        None => PollStep::Probe,
    }
}

/// Decides after a probe; `status` is the HTTP status, if there was a reply.
pub fn after_probe(status: Option<u16>) -> (r: PollStep)
    ensures
        r == (if status matches Some(code) && 200 <= code <= 299 {
            PollStep::Done(ReadyOutcome::Ready)
        } else {
            PollStep::Wait
        }),
{
    match status {
        Some(code) => {
            if 200 <= code && code <= 299 {
                PollStep::Done(ReadyOutcome::Ready)
            } else {
                PollStep::Wait
            }
        },
        None => PollStep::Wait,
    }
}

// ── Shutdown ────────────────────────────────────────────────────────────────

/// What happens to a child that is to be shut down.
#[derive(Debug, Clone, Copy, PartialEq, Eq, Structural)]
pub enum ShutdownStep {
    /// Nothing is left to do.
    Done,
    /// Ask it to terminate.
    Terminate,
    /// Wait for it to be reaped.
    Reap,
    /// Kill it.
    Kill,
}

/// First step: a child without a process id has been reaped already.
pub fn shutdown_begin(has_pid: bool) -> (r: ShutdownStep)
    ensures
        r == (if has_pid {
            ShutdownStep::Terminate
        } else {
            ShutdownStep::Done
        }),
{
    if has_pid {
        ShutdownStep::Terminate
    } else {
        ShutdownStep::Done
    }
}

/// After the termination signal: where it could not be sent, the process is
/// gone and only wants reaping; where the child exited in time, all is done;
/// otherwise it is killed.
pub fn shutdown_after_signal(sent: bool, exited_in_time: bool) -> (r: ShutdownStep)
    ensures
        r == (if !sent {
            ShutdownStep::Reap
        } else if exited_in_time {
            ShutdownStep::Done
        } else {
            ShutdownStep::Kill
        }),
{
    if !sent {
        ShutdownStep::Reap
    } else if exited_in_time {
        ShutdownStep::Done
    } else {
        ShutdownStep::Kill
    }
}

/// Devices are pinned by one variable, that of their namespace, and only where
/// there are any. Its value is the list of indices with commas.
pub proof fn law_devices_are_pinned(kind: DeviceKind, indices: Seq<usize>)
    ensures
        indices.len() == 0 ==> device_env(kind, indices) == Seq::<(Seq<char>, Seq<char>)>::empty(),
        indices.len() > 0 ==> device_env(kind, indices).len() == 1 && device_env(kind, indices)[0].1
            == join(indices.map_values(|i: usize| decimal(i as nat)), ","@),
        indices.len() > 0 ==> device_env(DeviceKind::Vulkan, indices)[0].0
            == "GGML_VK_VISIBLE_DEVICES"@,
        indices.len() > 0 ==> device_env(DeviceKind::Cuda, indices)[0].0 == "CUDA_VISIBLE_DEVICES"@,
        indices.len() > 0 ==> device_env(DeviceKind::Rocm, indices)[0].0 == "HIP_VISIBLE_DEVICES"@,
        kind != DeviceKind::Rocm || indices.len() == 0 ==> device_args(kind, indices)
            == Seq::<Seq<char>>::empty(),
        kind == DeviceKind::Rocm && indices.len() > 0 ==> device_args(kind, indices)[0]
            == "--device"@ && device_args(kind, indices).len() == 2,
{
    assert(decimals(indices) =~= indices.map_values(|i: usize| decimal(i as nat)));
}

/// The three offload flags, and what counts as a program of llama.cpp: one whose
/// name, without the directories before it, begins with `llama-`.
pub proof fn law_offload_flags_and_programs(directory: Seq<char>, rest: Seq<char>)
    requires
        forall|i: int| 0 <= i < rest.len() ==> rest[i] != '/',
    ensures
        is_offload_flag("--n-gpu-layers"@),
        is_offload_flag("-ngl"@),
        is_offload_flag("--n-offload"@),
        is_llama_program("llama-"@ + rest),
        is_llama_program(directory + "/llama-"@ + rest),
        !starts_with(rest, "llama-"@) ==> !is_llama_program(rest) && !is_llama_program(
            directory + "/"@ + rest,
        ),
{
    reveal_strlit("llama-");
    reveal_strlit("/llama-");
    reveal_strlit("/");
    let a = "llama-"@ + rest;
    lemma_basename(a, 0);
    assert(a.skip(0) =~= a);
    assert(a.subrange(0, 6) =~= "llama-"@);
    let b = directory + "/llama-"@ + rest;
    lemma_basename(b, (directory.len() + 1) as int);
    assert(b.skip((directory.len() + 1) as int) =~= a);
    lemma_basename(rest, 0);
    assert(rest.skip(0) =~= rest);
    let c = directory + "/"@ + rest;
    lemma_basename(c, (directory.len() + 1) as int);
    assert(c.skip((directory.len() + 1) as int) =~= rest);
}

/// A launch without devices tells a llama.cpp program that says nothing itself
/// to offload no layer, and changes no other command.
pub proof fn law_cpu_launch(program: Seq<char>, args: Seq<Seq<char>>)
    ensures
        starts_with(basename(program), "llama-"@) && offload_decl(args) == OffloadDecl::Absent
            ==> cpu_args(program, args) == args + seq!["--n-gpu-layers"@, "0"@],
        !starts_with(basename(program), "llama-"@) || offload_decl(args) != OffloadDecl::Absent
            ==> cpu_args(program, args) == args,
{
}

/// The health check of a backend is at its port on this machine.
pub proof fn law_health_address(port: u16)
    ensures
        health_address(port) == "http://127.0.0.1:"@ + decimal(port as nat) + "/health"@,
{
}

/// Of all lines that a backend has written, the last two hundred are kept, in
/// order.
pub proof fn law_two_hundred_lines_are_kept(all: Seq<Seq<char>>)
    ensures
        all.len() <= 200 ==> kept_after(all) == all,
        all.len() > 200 ==> kept_after(all) == all.subrange(all.len() - 200, all.len() as int),
{
    law_buffer_keeps_latest(all);
    if all.len() > 200 {
        assert(all.skip(all.len() - 200) =~= all.subrange(all.len() - 200, all.len() as int));
    }
}

/// Arguments that hold no offload flag, alone or before an equals sign, declare
/// no offload.
pub proof fn law_other_arguments_declare_nothing(args: Seq<Seq<char>>)
    requires
        forall|i: int|
            0 <= i < args.len() ==> (#[trigger] args[i]) != "--n-gpu-layers"@ && args[i] != "-ngl"@
                && args[i] != "--n-offload"@ && !starts_with(args[i], "--n-gpu-layers="@)
                && !starts_with(args[i], "-ngl="@) && !starts_with(args[i], "--n-offload="@),
    ensures
        offload_decl(args) == OffloadDecl::Absent,
{
    lemma_nothing_declared(args, 0);
}

proof fn lemma_nothing_declared(args: Seq<Seq<char>>, i: int)
    requires
        0 <= i,
        forall|i: int|
            0 <= i < args.len() ==> (#[trigger] args[i]) != "--n-gpu-layers"@ && args[i] != "-ngl"@
                && args[i] != "--n-offload"@ && !starts_with(args[i], "--n-gpu-layers="@)
                && !starts_with(args[i], "-ngl="@) && !starts_with(args[i], "--n-offload="@),
    ensures
        last_offload(args, i) is None,
    decreases args.len() - i,
{
    if i < args.len() {
        lemma_nothing_declared(args, i + 1);
        let a = args[i];
        lemma_find_from(a, seq!['='], 0);
        if let Some(p) = find(a, seq!['=']) {
            if is_offload_flag(a.take(p)) {
                reveal_strlit("--n-gpu-layers");
                reveal_strlit("--n-gpu-layers=");
                reveal_strlit("-ngl");
                reveal_strlit("-ngl=");
                reveal_strlit("--n-offload");
                reveal_strlit("--n-offload=");
                let flag = a.take(p);
                let head = a.subrange(0, p + 1);
                assert(a.subrange(p, p + 1)[0] == a[p]);
                assert(a[p] == '=');
                assert(head =~= flag + seq!['=']);
                assert("--n-gpu-layers"@ + seq!['='] =~= "--n-gpu-layers="@);
                assert("-ngl"@ + seq!['='] =~= "-ngl="@);
                assert("--n-offload"@ + seq!['='] =~= "--n-offload="@);
            }
        }
        assert(offload_token(args, i) == (None::<OffloadDecl>, 1int));
    }
}

/// ROCm devices are named to the program by their rank among those that it
/// sees.
pub proof fn law_rocm_devices_are_named(indices: Seq<usize>)
    requires
        indices.len() > 0,
    ensures
        device_args(DeviceKind::Rocm, indices) == seq![
            "--device"@,
            join(Seq::new(indices.len(), |rank: int| "ROCm"@ + decimal(rank as nat)), ","@),
        ],
{
    assert(rocm_names(indices.len()) =~= Seq::new(
        indices.len(),
        |rank: int| "ROCm"@ + decimal(rank as nat),
    ));
}

} // verus!
