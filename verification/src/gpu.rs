//! GPU metrics: what the kernel's text nodes say of a card.

use vstd::prelude::*;
use vstd::slice::slice_subrange;
use crate::numbers::{
    decimal, law_decimal_numbers_are_read, lemma_decimal_digits, lemma_decimal_value, parse_u64,
    parse_unsigned, unsigned,
};
use crate::text::{
    all_space, char_views, chars_at, chars_of, find, find_char, is_space, law_trim,
    lemma_find_from, lemma_find_is, lines, lines_of, occurs_at, same_text, starts_with, string_of,
    texts, trim, trim_str, trimmed,
};

verus! {

/// A measured quantity as it was reported.
#[derive(Debug)]
pub enum Reading {
    /// Nothing was reported.
    Missing,
    /// An integer in the given fraction of the unit.
    Fraction { value: u64, per_unit: u64 },
    /// A decimal number in the unit itself, not yet read.
    Decimal(String),
}

/// One snapshot of metrics for a single GPU.
#[derive(Debug)]
pub struct GpuMetrics {
    /// Card index (e.g. 0 for card0).
    pub index: usize,
    /// PCI slot name (e.g. "0000:7b:00.0").
    pub pci_slot: String,
    /// VRAM vendor string (e.g. "samsung"), if available.
    pub vram_vendor: Option<String>,
    pub vram_total_bytes: u64,
    pub vram_used_bytes: u64,
    /// Temperature in degrees Celsius.
    pub temperature: Reading,
    /// Power in watts.
    pub power: Reading,
    /// GPU busy percentage (0–100).
    pub gpu_busy_pct: Option<u32>,
    /// Current shader clock in MHz.
    pub sclk_mhz: Option<u64>,
    /// Current memory clock in MHz.
    pub mclk_mhz: Option<u64>,
}

// ── Uevent files ────────────────────────────────────────────────────────────

/// The key under which a uevent file names the PCI slot.
pub open spec fn slot_key() -> Seq<char> {
    "PCI_SLOT_NAME="@
}

/// The slots named by the first `n` lines, without surrounding whitespace.
pub open spec fn slots_in(all: Seq<Seq<char>>, n: int) -> Seq<Seq<char>>
    decreases n,
{
    if n <= 0 {
        Seq::empty()
    } else if starts_with(all[n - 1], slot_key()) {
        slots_in(all, n - 1).push(trim(all[n - 1].skip(slot_key().len() as int)))
    } else {
        slots_in(all, n - 1)
    }
}

/// The PCI slots that a uevent file names.
pub open spec fn uevent_slots(contents: Seq<char>) -> Seq<Seq<char>> {
    slots_in(lines(contents), lines(contents).len() as int)
}

/// Reads the PCI slots that a uevent file names.
pub fn pci_slots_of(contents: &str) -> (r: Vec<String>)
    ensures
        texts(r@) == uevent_slots(contents@),
{
    let text = chars_of(contents);
    let all = lines_of(text.as_slice());
    let key = chars_of("PCI_SLOT_NAME=");
    let mut out: Vec<String> = Vec::new();
    let ghost view = lines(contents@);
    assert(texts(out@) =~= slots_in(view, 0));
    for i in 0..all.len()
        invariant
            view == char_views(all@),
            key@ == slot_key(),
            texts(out@) == slots_in(view, i as int),
    {
        let line = all[i].as_slice();
        assert(view[i as int] == line@);
        if chars_at(line, key.as_slice(), 0) {
            let rest = slice_subrange(line, key.len(), line.len());
            assert(rest@ =~= line@.skip(slot_key().len() as int));
            let ghost before = out@;
            out.push(string_of(trimmed(rest)));
            assert(texts(out@) =~= texts(before).push(trim(rest@)));
        }
    }
    out
}

/// The first PCI slot that a uevent file names, or `unknown`.
pub open spec fn uevent_slot(contents: Seq<char>) -> Seq<char> {
    if uevent_slots(contents).len() > 0 {
        uevent_slots(contents)[0]
    } else {
        "unknown"@
    }
}

/// Reads the PCI slot name out of a uevent file; `None` is a file that could
/// not be read.
pub fn read_pci_slot(contents: Option<&str>) -> (r: String)
    ensures
        contents matches Some(c) ==> r@ == uevent_slot(c@),
        contents is None ==> r@ == "unknown"@,
{
    match contents {
        Some(c) => {
            let slots = pci_slots_of(c);
            if slots.len() > 0 {
                assert(texts(slots@)[0] == slots@[0]@);
                slots[0].clone()
            } else {
                "unknown".to_owned()
            }
        },
        None => "unknown".to_owned(),
    }
}

// ── Single values ───────────────────────────────────────────────────────────

/// Whether a `vendor` node names AMD.
pub fn is_amd_vendor(contents: &str) -> (r: bool)
    ensures
        r == (trim(contents@) == "0x1002"@),
{
    let t = trim_str(contents);
    same_text(t.as_str(), "0x1002")
}

/// The unsigned number in a node.
pub open spec fn node_number(contents: Seq<char>) -> Option<nat> {
    unsigned(trim(contents), 10, u64::MAX as nat)
}

/// Reads a numeric node.
pub fn read_u64(contents: &str) -> (r: Option<u64>)
    ensures
        r is Some <==> node_number(contents@) is Some,
        r matches Some(v) ==> node_number(contents@) == Some(v as nat),
{
    let t = trim_str(contents);
    parse_u64(t.as_str())
}

/// The first of several nodes that holds a number.
pub open spec fn first_number(nodes: Seq<Option<String>>) -> Option<nat>
    decreases nodes.len(),
{
    if nodes.len() == 0 {
        None
    } else {
        match nodes[0] {
            Some(c) => match node_number(c@) {
                Some(v) => Some(v),
                None => first_number(nodes.drop_first()),
            },
            None => first_number(nodes.drop_first()),
        }
    }
}

/// Reads the first of several nodes that holds a number; `None` is a node
/// that is not there.
pub fn find_hwmon_numeric(nodes: &Vec<Option<String>>) -> (r: Option<u64>)
    ensures
        r is Some <==> first_number(nodes@) is Some,
        r matches Some(v) ==> first_number(nodes@) == Some(v as nat),
{
    assert(nodes@.skip(0) =~= nodes@);
    for i in 0..nodes.len()
        invariant
            first_number(nodes@) == first_number(nodes@.skip(i as int)),
    {
        assert(nodes@.skip(i as int).drop_first() =~= nodes@.skip(i + 1));
        assert(nodes@.skip(i as int)[0] == nodes@[i as int]);
        if let Some(c) = &nodes[i] {
            let v = read_u64(c.as_str());
            if v.is_some() {
                return v;
            }
        }
    }
    assert(nodes@.skip(nodes@.len() as int).len() == 0);
    None
}

// ── Clock levels ────────────────────────────────────────────────────────────

/// The digits that `s` begins with.
pub open spec fn leading_digits(s: Seq<char>) -> Seq<char>
    decreases s.len(),
{
    if s.len() > 0 && '0' <= s[0] && s[0] <= '9' {
        seq![s[0]] + leading_digits(s.drop_first())
    } else {
        Seq::empty()
    }
}

/// How many digits a slice begins with.
fn count_digits(s: &[char]) -> (r: usize)
    ensures
        r <= s@.len(),
        leading_digits(s@) == s@.take(r as int),
{
    let n: usize = s.len();
    let mut k: usize = 0;
    assert(s@.take(0) + leading_digits(s@.skip(0)) =~= leading_digits(s@)) by {
        assert(s@.skip(0) =~= s@);
    }
    while k < n && '0' <= s[k] && s[k] <= '9'
        invariant
            k <= n,
            n == s@.len(),
            s@.take(k as int) + leading_digits(s@.skip(k as int)) == leading_digits(s@),
        decreases n - k,
    {
        assert(s@.skip(k as int).drop_first() =~= s@.skip(k + 1));
        assert(s@.take(k as int) + (seq![s@[k as int]] + leading_digits(s@.skip(k + 1)))
            =~= s@.take(k + 1) + leading_digits(s@.skip(k + 1)));
        k += 1;
    }
    assert(leading_digits(s@.skip(k as int)) =~= Seq::<char>::empty());
    assert(s@.take(k as int) + Seq::<char>::empty() =~= s@.take(k as int));
    k
}

/// A line that marks the active level and has a colon.
pub open spec fn is_active_level(line: Seq<char>) -> bool {
    find(line, seq!['*']) is Some && find(line, seq![':']) is Some
}

/// The frequency that a level line gives after its colon.
pub open spec fn level_clock(line: Seq<char>) -> Option<nat> {
    unsigned(
        leading_digits(trim(line.skip(find(line, seq![':'])->0 + 1))),
        10,
        u64::MAX as nat,
    )
}

/// The frequency of the first active level among the lines.
pub open spec fn active_clock(all: Seq<Seq<char>>) -> Option<nat>
    decreases all.len(),
{
    if all.len() == 0 {
        None
    } else if is_active_level(all[0]) {
        level_clock(all[0])
    } else {
        active_clock(all.drop_first())
    }
}

/// Reads the active clock frequency in MHz. Each line looks like
/// `0: 600Mhz *`; the active level has a `*`.
pub fn read_dpm_clock(contents: &str) -> (r: Option<u64>)
    ensures
        r is Some <==> active_clock(lines(trim(contents@))) is Some,
        r matches Some(v) ==> active_clock(lines(trim(contents@))) == Some(v as nat),
{
    let text = chars_of(contents);
    let all = lines_of(trimmed(text.as_slice()));
    let ghost view = lines(trim(contents@));
    assert(view.skip(0) =~= view);
    for i in 0..all.len()
        invariant
            view == char_views(all@),
            view == lines(trim(contents@)),
            active_clock(view) == active_clock(view.skip(i as int)),
    {
        let line = all[i].as_slice();
        assert(view[i as int] == line@);
        assert(view.skip(i as int)[0] == line@);
        assert(view.skip(i as int).drop_first() =~= view.skip(i + 1));
        if find_char(line, '*').is_some() {
            if let Some(colon) = find_char(line, ':') {
                let rest = slice_subrange(line, colon + 1, line.len());
                assert(rest@ =~= line@.skip(colon + 1));
                let body = trimmed(rest);
                let k: usize = count_digits(body);
                let digits = slice_subrange(body, 0, k);
                assert(digits@ =~= leading_digits(body@));
                return parse_unsigned(digits, 10, u64::MAX);
            }
        }
    }
    assert(view.skip(view.len() as int).len() == 0);
    None
}

// ── One card ────────────────────────────────────────────────────────────────

/// The text nodes of one card; `None` is a node that could not be read.
pub struct CardNodes {
    pub uevent: Option<String>,
    pub vram_vendor: Option<String>,
    pub vram_total: Option<String>,
    pub vram_used: Option<String>,
    /// `hwmon/hwmonN/temp1_input` for N from 0, in thousandths of a degree.
    pub temperatures: Vec<Option<String>>,
    /// `hwmon/hwmonN/power1_average` for N from 0, in millionths of a watt.
    pub powers: Vec<Option<String>>,
    pub busy_percent: Option<String>,
    pub sclk: Option<String>,
    pub mclk: Option<String>,
}

/// The number in a node that may be missing.
pub open spec fn optional_number(node: Option<String>) -> Option<nat> {
    match node {
        Some(c) => node_number(c@),
        None => None,
    }
}

fn read_optional(node: &Option<String>) -> (r: Option<u64>)
    ensures
        r is Some <==> optional_number(*node) is Some,
        r matches Some(v) ==> optional_number(*node) == Some(v as nat),
{
    match node {
        Some(c) => read_u64(c.as_str()),
        None => None,
    }
}

/// The clock in a node that may be missing.
pub open spec fn optional_clock(node: Option<String>) -> Option<nat> {
    match node {
        Some(c) => active_clock(lines(trim(c@))),
        None => None,
    }
}

fn read_clock(node: &Option<String>) -> (r: Option<u64>)
    ensures
        r is Some <==> optional_clock(*node) is Some,
        r matches Some(v) ==> optional_clock(*node) == Some(v as nat),
{
    match node {
        Some(c) => read_dpm_clock(c.as_str()),
        None => None,
    }
}

/// A value that was read stands for a number in a node.
pub open spec fn reads(v: Option<u64>, n: Option<nat>) -> bool {
    match (v, n) {
        (Some(a), Some(b)) => a == b,
        (None, None) => true,
        _ => false,
    }
}

/// A reading stands for a number in the given fraction of its unit.
pub open spec fn reading_of(r: Reading, n: Option<nat>, per_unit: u64) -> bool {
    match n {
        Some(v) => r matches Reading::Fraction { value, per_unit: p } && value == v && p
            == per_unit,
        None => r is Missing,
    }
}

/// Puts together the metrics of one card.
pub fn read_one_gpu(card_index: usize, nodes: &CardNodes) -> (r: GpuMetrics)
    ensures
        r.index == card_index,
        nodes.uevent matches Some(c) ==> r.pci_slot@ == uevent_slot(c@),
        nodes.uevent is None ==> r.pci_slot@ == "unknown"@,
        nodes.vram_vendor matches Some(c) ==> r.vram_vendor is Some && r.vram_vendor->0@ == trim(
            c@,
        ),
        nodes.vram_vendor is None ==> r.vram_vendor is None,
        r.vram_total_bytes == (match optional_number(nodes.vram_total) {
            Some(v) => v,
            None => 0,
        }),
        r.vram_used_bytes == (match optional_number(nodes.vram_used) {
            Some(v) => v,
            None => 0,
        }),
        reading_of(r.temperature, first_number(nodes.temperatures@), 1000),
        reading_of(r.power, first_number(nodes.powers@), 1_000_000),
        r.gpu_busy_pct is Some <==> optional_number(nodes.busy_percent) is Some,
        r.gpu_busy_pct matches Some(p) ==> p == optional_number(nodes.busy_percent)->0
            % 0x1_0000_0000,
        reads(r.sclk_mhz, optional_clock(nodes.sclk)),
        reads(r.mclk_mhz, optional_clock(nodes.mclk)),
{
    let pci_slot = match &nodes.uevent {
        Some(c) => read_pci_slot(Some(c.as_str())),
        None => read_pci_slot(None),
    };
    let vram_vendor = match &nodes.vram_vendor {
        Some(c) => Some(trim_str(c.as_str())),
        None => None,
    };
    let vram_total_bytes: u64 = match read_optional(&nodes.vram_total) {
        Some(v) => v,
        None => 0,
    };
    let vram_used_bytes: u64 = match read_optional(&nodes.vram_used) {
        Some(v) => v,
        None => 0,
    };
    let temperature = match find_hwmon_numeric(&nodes.temperatures) {
        Some(v) => Reading::Fraction { value: v, per_unit: 1000 },
        None => Reading::Missing,
    };
    let power = match find_hwmon_numeric(&nodes.powers) {
        Some(v) => Reading::Fraction { value: v, per_unit: 1_000_000 },
        None => Reading::Missing,
    };
    let gpu_busy_pct: Option<u32> = match read_optional(&nodes.busy_percent) {
        Some(v) => Some(low_half(v)),
        None => None,
    };
    GpuMetrics {
        index: card_index,
        pci_slot,
        vram_vendor,
        vram_total_bytes,
        vram_used_bytes,
        temperature,
        power,
        gpu_busy_pct,
        sclk_mhz: read_clock(&nodes.sclk),
        mclk_mhz: read_clock(&nodes.mclk),
    }
}

/// The low 32 bits of a number.
pub fn low_half(v: u64) -> (r: u32)
    ensures
        r == v % 0x1_0000_0000,
{
    (v % 0x1_0000_0000) as u32
}

/// Each line `PCI_SLOT_NAME=` of a uevent file names a slot, without the space
/// around it; other lines name none. The first slot counts, and a file without
/// one gives `unknown`.
pub proof fn law_slots_of_a_file(
    before: Seq<Seq<char>>,
    value: Seq<char>,
    other: Seq<char>,
    contents: Seq<char>,
)
    requires
        !starts_with(other, "PCI_SLOT_NAME="@),
    ensures
        slots_in(Seq::empty(), 0) == Seq::<Seq<char>>::empty(),
        slots_in(before.push("PCI_SLOT_NAME="@ + value), before.len() as int + 1) == slots_in(
            before,
            before.len() as int,
        ).push(trim(value)),
        slots_in(before.push(other), before.len() as int + 1) == slots_in(
            before,
            before.len() as int,
        ),
        uevent_slots(contents) == slots_in(lines(contents), lines(contents).len() as int),
        uevent_slots(contents).len() > 0 ==> uevent_slot(contents) == uevent_slots(contents)[0],
        uevent_slots(contents).len() == 0 ==> uevent_slot(contents) == "unknown"@,
{
    let line = "PCI_SLOT_NAME="@ + value;
    lemma_slots_of_prefix(before, line, before.len() as int);
    lemma_slots_of_prefix(before, other, before.len() as int);
    assert(line.subrange(0, "PCI_SLOT_NAME="@.len() as int) =~= "PCI_SLOT_NAME="@);
    assert(line.skip("PCI_SLOT_NAME="@.len() as int) =~= value);
}

/// A line at the end does not change what the lines before it name.
proof fn lemma_slots_of_prefix(before: Seq<Seq<char>>, line: Seq<char>, n: int)
    requires
        n <= before.len(),
    ensures
        slots_in(before.push(line), n) == slots_in(before, n),
    decreases n,
{
    if n > 0 {
        lemma_slots_of_prefix(before, line, n - 1);
    }
}

/// A node holds a number if that is all it holds besides space. Of several
/// nodes the first with a number counts.
pub proof fn law_numbers_in_nodes(
    before: Seq<char>,
    n: nat,
    after: Seq<char>,
    node: Option<String>,
    rest: Seq<Option<String>>,
)
    requires
        all_space(before),
        all_space(after),
    ensures
        n <= u64::MAX ==> node_number(before + decimal(n) + after) == Some(n),
        n > u64::MAX ==> node_number(before + decimal(n) + after) is None,
        first_number(Seq::empty()) is None,
        optional_number(node) is Some ==> first_number(seq![node] + rest) == optional_number(node),
        optional_number(node) is None ==> first_number(seq![node] + rest) == first_number(rest),
        node is None ==> optional_number(node) is None,
        node matches Some(c) ==> optional_number(node) == node_number(c@),
{
    let d = decimal(n);
    lemma_decimal_value(n);
    lemma_decimal_digits(n);
    assert(d.last() == d[d.len() - 1]);
    law_trim(before, d, after);
    law_decimal_numbers_are_read(n, u64::MAX as nat, d, 0);
    assert((seq![node] + rest).drop_first() =~= rest);
}

/// The active level is the first line with a star and a colon. Its clock is the
/// number after the colon, whatever space stands before that number and
/// whatever follows it.
pub proof fn law_active_clock(
    level: Seq<char>,
    space: Seq<char>,
    n: nat,
    unit: Seq<char>,
    line: Seq<char>,
    rest: Seq<Seq<char>>,
)
    requires
        forall|i: int| 0 <= i < level.len() ==> level[i] != ':',
        all_space(space),
        unit.len() > 0,
        !('0' <= unit[0] && unit[0] <= '9'),
        !is_space(unit.last()),
        !line.contains('*') || !line.contains(':'),
        n <= u64::MAX,
    ensures
        unit.contains('*') ==> active_clock(
            seq![level + seq![':'] + (space + (decimal(n) + unit))] + rest,
        ) == Some(n),
        active_clock(seq![line] + rest) == active_clock(rest),
        active_clock(Seq::empty()) is None,
{
    let d = decimal(n);
    let tail = space + (d + unit);
    let full = level + seq![':'] + tail;
    let at = level.len() as int;
    lemma_decimal_value(n);
    lemma_decimal_digits(n);
    assert((seq![full] + rest).drop_first() =~= rest);
    assert((seq![line] + rest).drop_first() =~= rest);
    assert(full.subrange(at, at + 1) =~= seq![':']);
    assert forall|j: int| 0 <= j < at implies !occurs_at(full, seq![':'], j) by {
        if occurs_at(full, seq![':'], j) {
            assert(full.subrange(j, j + 1)[0] == level[j]);
        }
    }
    lemma_find_is(full, seq![':'], at);
    assert(full.skip(at + 1) =~= tail);
    let word = d + unit;
    assert(word[0] == d[0] && word.last() == unit.last());
    law_trim(space, word, Seq::empty());
    assert(space + word + Seq::<char>::empty() =~= tail);
    lemma_leading_digits(d, unit);
    law_decimal_numbers_are_read(n, u64::MAX as nat, d, 0);
    if unit.contains('*') {
        let k = unit.index_of('*');
        let j = full.len() - unit.len() + k;
        assert(full[j] == '*');
        assert(full.subrange(j, j + 1) =~= seq!['*']);
        lemma_find_from(full, seq!['*'], 0);
        assert(occurs_at(full, seq!['*'], j));
        assert(is_active_level(full));
    }
    lemma_find_from(line, seq!['*'], 0);
    lemma_find_from(line, seq![':'], 0);
    if let Some(k) = find(line, seq!['*']) {
        assert(line.subrange(k, k + 1)[0] == line[k]);
    }
    if let Some(k) = find(line, seq![':']) {
        assert(line.subrange(k, k + 1)[0] == line[k]);
    }
}

/// The digits that a text begins with end at the first other character.
proof fn lemma_leading_digits(d: Seq<char>, unit: Seq<char>)
    requires
        forall|i: int| 0 <= i < d.len() ==> '0' <= #[trigger] d[i] && d[i] <= '9',
        unit.len() > 0,
        !('0' <= unit[0] && unit[0] <= '9'),
    ensures
        leading_digits(d + unit) == d,
    decreases d.len(),
{
    if d.len() == 0 {
        assert(d + unit =~= unit);
    } else {
        let rest = d.drop_first();
        assert forall|i: int| 0 <= i < rest.len() implies '0' <= #[trigger] rest[i] && rest[i]
            <= '9' by {
            assert(rest[i] == d[i + 1]);
        }
        lemma_leading_digits(rest, unit);
        assert((d + unit).drop_first() =~= rest + unit);
        assert(seq![d[0]] + rest =~= d);
    }
}

/// What is read from a node is told as it is; a node without a number, or that
/// is not there, is told as missing.
pub proof fn law_readings(r: Reading, v: Option<u64>, n: nat, per_unit: u64, node: Option<String>)
    ensures
        reading_of(r, Some(n), per_unit) <==> (r matches Reading::Fraction { value, per_unit: p }
            && value == n && p == per_unit),
        reading_of(r, None, per_unit) <==> r is Missing,
        reads(v, Some(n)) <==> (v matches Some(x) && x == n),
        reads(v, None) <==> v is None,
        node is None ==> optional_clock(node) is None,
        node matches Some(c) ==> optional_clock(node) == active_clock(lines(trim(c@))),
{
}

} // verus!
