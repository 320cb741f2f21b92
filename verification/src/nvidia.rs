//! NVIDIA GPU metrics out of the CSV that `nvidia-smi` prints.

use vstd::prelude::*;
use vstd::slice::slice_subrange;
use crate::gpu::{low_half, GpuMetrics, Reading};
use crate::numbers::{
    after_plus, ascii_lower, digit_char, digit_value, digits_value, in_radix, lower,
    parse_unsigned, to_hex_padded, unsigned, zero_padded,
};
use crate::text::{
    all_space, cat3, char_views, chars_of, find, find_char, is_space, law_split_of_pieces, law_trim,
    lemma_find_from, lemma_find_is, lemma_split_nonempty, lines, lines_of, occurs_at, split,
    split_at_either, split_chars, split_either, split_once, string_of, trim, trim_end, trim_start,
    trimmed,
};

verus! {

/// A number in a CSV field.
pub open spec fn field_number(s: Seq<char>) -> Option<nat> {
    unsigned(s, 10, u64::MAX as nat)
}

fn parse_u64(s: &[char]) -> (r: Option<u64>)
    ensures
        r is Some <==> field_number(s@) is Some,
        r matches Some(v) ==> field_number(s@) == Some(v as nat),
{
    parse_unsigned(s, 10, u64::MAX)
}

/// MiB as bytes, in 64-bit arithmetic that wraps.
pub open spec fn mib_bytes(mib: nat) -> nat {
    (mib * 1048576) % 0x1_0000_0000_0000_0000
}

/// Reads a MiB value into bytes; none for `N/A` and other unreadable values.
fn parse_mib(s: &[char]) -> (r: Option<u64>)
    ensures
        r is Some <==> field_number(s@) is Some,
        r matches Some(v) ==> v == mib_bytes(field_number(s@)->0),
{
    match parse_u64(s) {
        Some(mib) => {
            let wide: u128 = (mib as u128 * 1048576) % 0x1_0000_0000_0000_0000;
            Some(wide as u64)
        },
        None => None,
    }
}

/// A 32-bit number in hexadecimal.
pub open spec fn hex32(s: Seq<char>) -> Option<nat> {
    unsigned(s, 16, u32::MAX as nat)
}

/// The text in lower case.
pub open spec fn lower_text(s: Seq<char>) -> Seq<char> {
    s.map_values(|c: char| ascii_lower(c))
}

/// A PCI bus id in the form that sysfs uses: a domain of at least four
/// digits, then `bus:device.function`, all in lower-case hexadecimal.
pub open spec fn sysfs_slot(bus_id: Seq<char>) -> Option<Seq<char>> {
    match split_once(bus_id, ':') {
        Some((domain, rest)) => {
            let parts = split_at_either(rest, ':', '.');
            if hex32(domain) is Some && parts.len() == 3 && hex32(parts[0]) is Some && hex32(
                parts[1],
            ) is Some && hex32(parts[2]) is Some {
                Some(zero_padded(in_radix(hex32(domain)->0, 16), 4) + ":"@ + lower_text(rest))
            } else {
                None
            }
        },
        None => None,
    }
}

fn lower_chars(s: &[char]) -> (r: String)
    ensures
        r@ == lower_text(s@),
{
    let mut out = String::new();
    for i in 0..s.len()
        invariant
            out@ == lower_text(s@.take(i as int)),
    {
        out.push(lower(s[i]));
        assert(lower_text(s@.take(i + 1)) =~= lower_text(s@.take(i as int)).push(
            ascii_lower(s@[i as int]),
        ));
    }
    assert(s@.take(s@.len() as int) =~= s@);
    out
}

/// Normalizes a PCI bus id.
fn normalize_slot_chars(bus_id: &[char]) -> (r: Option<String>)
    ensures
        r is Some <==> sysfs_slot(bus_id@) is Some,
        r matches Some(s) ==> sysfs_slot(bus_id@) == Some(s@),
{
    let len: usize = bus_id.len();
    let colon: usize = match find_char(bus_id, ':') {
        Some(p) => p,
        None => {
            return None;
        },
    };
    let domain = slice_subrange(bus_id, 0, colon);
    let rest = slice_subrange(bus_id, colon + 1, len);
    assert(domain@ =~= bus_id@.take(colon as int));
    assert(rest@ =~= bus_id@.skip(colon + 1));
    let number: u64 = match parse_unsigned(domain, 16, u32::MAX as u64) {
        Some(v) => v,
        None => {
            return None;
        },
    };
    let parts = split_either(rest, ':', '.');
    let ghost view = char_views(parts@);
    if parts.len() != 3 {
        return None;
    }
    assert(view[0] == parts@[0]@ && view[1] == parts@[1]@ && view[2] == parts@[2]@);
    if parse_unsigned(parts[0].as_slice(), 16, u32::MAX as u64).is_none() || parse_unsigned(
        parts[1].as_slice(),
        16,
        u32::MAX as u64,
    ).is_none() || parse_unsigned(parts[2].as_slice(), 16, u32::MAX as u64).is_none() {
        return None;
    }
    Some(cat3(to_hex_padded(number, 4).as_str(), ":", lower_chars(rest).as_str()))
}

/// Normalizes an `nvidia-smi` PCI bus id (`00000000:65:00.0`) to the sysfs
/// slot form (`0000:65:00.0`).
pub fn normalize_pci_slot(bus_id: &str) -> (r: Option<String>)
    ensures
        r is Some <==> sysfs_slot(bus_id@) is Some,
        r matches Some(s) ==> sysfs_slot(bus_id@) == Some(s@),
{
    let v = chars_of(bus_id);
    normalize_slot_chars(v.as_slice())
}

/// A digit of a lower-case hexadecimal number.
pub open spec fn is_hex(c: char) -> bool {
    ('0' <= c && c <= '9') || ('a' <= c && c <= 'f')
}

/// A text that is a lower-case hexadecimal number of the given value.
spec fn is_hex_number(s: Seq<char>, n: nat) -> bool {
    &&& s.len() > 0
    &&& digits_value(s, 16) == Some(n)
    &&& forall|i: int| 0 <= i < s.len() ==> is_hex(#[trigger] s[i])
}

proof fn lemma_hex_number(n: nat)
    ensures
        is_hex_number(in_radix(n, 16), n),
    decreases n,
{
    let s = in_radix(n, 16);
    if n < 16 {
        assert(s.drop_last() =~= Seq::<char>::empty());
        assert(digits_value(s.drop_last(), 16) == Some(0nat));
        assert(digit_value(digit_char(n), 16) == Some(n));
    } else {
        lemma_hex_number(n / 16);
        assert(s.drop_last() =~= in_radix(n / 16, 16));
        assert(digit_value(digit_char(n % 16), 16) == Some(n % 16));
        assert forall|i: int| 0 <= i < s.len() implies is_hex(#[trigger] s[i]) by {
            if i < s.len() - 1 {
                assert(s[i] == in_radix(n / 16, 16)[i]);
            }
        }
    }
}

proof fn lemma_leading_zero(s: Seq<char>)
    ensures
        digits_value(seq!['0'] + s, 16) == digits_value(s, 16),
    decreases s.len(),
{
    let t = seq!['0'] + s;
    if s.len() == 0 {
        assert(t.drop_last() =~= Seq::<char>::empty());
        assert(digits_value(t.drop_last(), 16) == Some(0nat));
        assert(digit_value('0', 16) == Some(0nat));
    } else {
        assert(t.drop_last() =~= seq!['0'] + s.drop_last());
        lemma_leading_zero(s.drop_last());
    }
}

proof fn lemma_padded_hex(s: Seq<char>, width: nat, n: nat)
    requires
        is_hex_number(s, n),
    ensures
        is_hex_number(zero_padded(s, width), n),
    decreases width - s.len(),
{
    if s.len() < width {
        let t = seq!['0'] + s;
        lemma_leading_zero(s);
        assert forall|i: int| 0 <= i < t.len() implies is_hex(#[trigger] t[i]) by {
            if i > 0 {
                assert(t[i] == s[i - 1]);
            }
        }
        lemma_padded_hex(t, width, n);
    }
}

proof fn lemma_lower_digits(s: Seq<char>)
    ensures
        digits_value(lower_text(s), 16) == digits_value(s, 16),
    decreases s.len(),
{
    if s.len() > 0 {
        let t = lower_text(s);
        assert(t.drop_last() =~= lower_text(s.drop_last()));
        assert(t.last() == ascii_lower(s.last()));
        lemma_lower_digits(s.drop_last());
        assert(digit_value(ascii_lower(s.last()), 16) == digit_value(s.last(), 16));
    }
}

proof fn lemma_lower_hex(s: Seq<char>)
    ensures
        hex32(lower_text(s)) == hex32(s),
{
    let t = lower_text(s);
    assert(after_plus(t) =~= lower_text(after_plus(s)));
    lemma_lower_digits(after_plus(s));
}

proof fn lemma_lower_pieces(s: Seq<char>)
    ensures
        split_at_either(lower_text(s), ':', '.').len() == split_at_either(s, ':', '.').len(),
        forall|k: int|
            0 <= k < split_at_either(s, ':', '.').len() ==> #[trigger] split_at_either(
                lower_text(s),
                ':',
                '.',
            )[k] == lower_text(split_at_either(s, ':', '.')[k]),
    decreases s.len(),
{
    let t = lower_text(s);
    let a = split_at_either(s, ':', '.');
    let b = split_at_either(t, ':', '.');
    if s.len() == 0 {
        assert(b[0] =~= lower_text(a[0]));
    } else {
        let front = s.drop_last();
        assert(t.drop_last() =~= lower_text(front));
        assert(t.last() == ascii_lower(s.last()));
        lemma_lower_pieces(front);
        lemma_split_nonempty(front, ':', '.');
        let fa = split_at_either(front, ':', '.');
        let fb = split_at_either(t.drop_last(), ':', '.');
        assert forall|k: int| 0 <= k < a.len() implies #[trigger] b[k] == lower_text(a[k]) by {
            if k < fa.len() {
                assert(fb[k] == lower_text(fa[k]));
            }
            if k == a.len() - 1 {
                if s.last() == ':' || s.last() == '.' {
                    assert(b[k] =~= lower_text(a[k]));
                } else {
                    assert(fb.last() == lower_text(fa.last()));
                    assert(lower_text(fa.last().push(s.last())) =~= lower_text(fa.last()).push(
                        ascii_lower(s.last()),
                    ));
                }
            }
        }
    }
}

/// Normalizing a slot that is in the form of sysfs changes nothing, and that
/// form has no upper-case letter.
pub proof fn law_normalizing_is_idempotent(bus_id: Seq<char>)
    ensures
        sysfs_slot(bus_id) matches Some(t) ==> {
            &&& sysfs_slot(t) == Some(t)
            &&& forall|i: int| 0 <= i < t.len() ==> !('A' <= #[trigger] t[i] && t[i] <= 'Z')
        },
{
    if let Some(t) = sysfs_slot(bus_id) {
        reveal_strlit(":");
        let (domain, rest) = split_once(bus_id, ':')->0;
        let n = hex32(domain)->0;
        let d = zero_padded(in_radix(n, 16), 4);
        let tail = lower_text(rest);
        lemma_hex_number(n);
        lemma_padded_hex(in_radix(n, 16), 4, n);
        let at = d.len() as int;
        assert(t == d + ":"@ + tail);
        assert(t[at] == ':');
        assert(t.subrange(at, at + 1) =~= seq![':']);
        assert forall|j: int| 0 <= j < at implies !occurs_at(t, seq![':'], j) by {
            assert(t.subrange(j, j + 1)[0] == d[j]);
            assert(is_hex(d[j]));
        }
        lemma_find_is(t, seq![':'], at);
        assert(t.take(at) =~= d);
        assert(t.skip(at + 1) =~= tail);
        assert(is_hex(d[0]));
        assert(after_plus(d) == d);
        assert(hex32(d) == Some(n));
        lemma_lower_pieces(rest);
        let parts = split_at_either(rest, ':', '.');
        let lowered = split_at_either(tail, ':', '.');
        assert(lowered[0] == lower_text(parts[0]));
        assert(lowered[1] == lower_text(parts[1]));
        assert(lowered[2] == lower_text(parts[2]));
        lemma_lower_hex(parts[0]);
        lemma_lower_hex(parts[1]);
        lemma_lower_hex(parts[2]);
        assert(lower_text(tail) =~= tail);
        assert forall|i: int| 0 <= i < t.len() implies !('A' <= #[trigger] t[i] && t[i] <= 'Z') by {
            if i < at {
                assert(t[i] == d[i]);
                assert(is_hex(d[i]));
            } else if i > at {
                assert(t[i] == ascii_lower(rest[i - at - 1]));
            }
        }
    }
}

/// No separator of a bus id stands in it.
pub open spec fn unseparated(s: Seq<char>) -> bool {
    forall|i: int| 0 <= i < s.len() ==> #[trigger] s[i] != ':' && s[i] != '.'
}

proof fn lemma_digits_unseparated(s: Seq<char>)
    requires
        digits_value(s, 16) is Some,
    ensures
        unseparated(s),
    decreases s.len(),
{
    if s.len() > 0 {
        let front = s.drop_last();
        lemma_digits_unseparated(front);
        assert forall|i: int| 0 <= i < s.len() implies #[trigger] s[i] != ':' && s[i] != '.' by {
            if i < front.len() {
                assert(s[i] == front[i]);
            }
        }
    }
}

proof fn lemma_hex_unseparated(s: Seq<char>)
    requires
        hex32(s) is Some,
    ensures
        unseparated(s),
{
    let digits = after_plus(s);
    lemma_digits_unseparated(digits);
    if digits != s {
        assert forall|i: int| 0 <= i < s.len() implies #[trigger] s[i] != ':' && s[i] != '.' by {
            if i > 0 {
                assert(s[i] == digits[i - 1]);
            }
        }
    }
}

/// What stands after the last separator is the last piece.
proof fn lemma_last_piece(s: Seq<char>, sep: char, t: Seq<char>)
    requires
        sep == ':' || sep == '.',
        unseparated(t),
    ensures
        split_at_either(s + seq![sep] + t, ':', '.') == split_at_either(s, ':', '.').push(t),
    decreases t.len(),
{
    let all = s + seq![sep] + t;
    let pieces = split_at_either(s, ':', '.');
    if t.len() == 0 {
        assert(all.drop_last() =~= s);
        assert(t =~= Seq::<char>::empty());
    } else {
        let front = t.drop_last();
        assert(unseparated(front)) by {
            assert forall|i: int| 0 <= i < front.len() implies #[trigger] front[i] != ':' && front[i]
                != '.' by {
                assert(front[i] == t[i]);
            }
        }
        lemma_last_piece(s, sep, front);
        assert(all.drop_last() =~= s + seq![sep] + front);
        assert(all.last() == t[t.len() - 1]);
        assert(pieces.push(front).drop_last() =~= pieces);
        assert(front.push(t.last()) =~= t);
    }
}

/// What has no separator is one piece.
proof fn lemma_one_piece(t: Seq<char>)
    requires
        unseparated(t),
    ensures
        split_at_either(t, ':', '.') == seq![t],
    decreases t.len(),
{
    if t.len() == 0 {
        assert(t =~= Seq::<char>::empty());
    } else {
        let front = t.drop_last();
        assert(unseparated(front)) by {
            assert forall|i: int| 0 <= i < front.len() implies #[trigger] front[i] != ':' && front[i]
                != '.' by {
                assert(front[i] == t[i]);
            }
        }
        lemma_one_piece(front);
        assert(t.last() == t[t.len() - 1]);
        assert(front.push(t.last()) =~= t);
        assert(seq![front].drop_last().push(t) =~= seq![t]);
    }
}

proof fn lemma_domain(domain: Seq<char>, rest: Seq<char>)
    requires
        unseparated(domain),
    ensures
        split_once(domain + ":"@ + rest, ':') == Some((domain, rest)),
{
    reveal_strlit(":");
    let s = domain + ":"@ + rest;
    let at = domain.len() as int;
    assert(s.subrange(at, at + 1) =~= seq![':']);
    assert forall|j: int| 0 <= j < at implies !occurs_at(s, seq![':'], j) by {
        assert(s.subrange(j, j + 1)[0] == domain[j]);
    }
    lemma_find_is(s, seq![':'], at);
    assert(s.take(at) =~= domain);
    assert(s.skip(at + 1) =~= rest);
}

/// A bus id of four hexadecimal numbers is a slot: only the value of the domain
/// counts, not how many digits it is written with, and the case of letters does
/// not matter.
pub proof fn law_slot_of_its_numbers(
    domain: Seq<char>,
    bus: Seq<char>,
    device: Seq<char>,
    function: Seq<char>,
)
    requires
        hex32(domain) is Some,
        hex32(bus) is Some,
        hex32(device) is Some,
        hex32(function) is Some,
    ensures
        sysfs_slot(domain + ":"@ + (bus + ":"@ + device + "."@ + function)) == Some(
            zero_padded(in_radix(hex32(domain)->0, 16), 4) + ":"@ + (lower_text(bus) + ":"@
                + lower_text(device) + "."@ + lower_text(function)),
        ),
{
    reveal_strlit(":");
    reveal_strlit(".");
    lemma_hex_unseparated(domain);
    lemma_hex_unseparated(bus);
    lemma_hex_unseparated(device);
    lemma_hex_unseparated(function);
    let rest = bus + ":"@ + device + "."@ + function;
    lemma_domain(domain, rest);
    lemma_one_piece(bus);
    lemma_last_piece(bus, ':', device);
    lemma_last_piece(bus + ":"@ + device, '.', function);
    assert(seq![':'] =~= ":"@);
    assert(seq!['.'] =~= "."@);
    let parts = split_at_either(rest, ':', '.');
    assert(parts == seq![bus].push(device).push(function));
    assert(parts[0] == bus && parts[1] == device && parts[2] == function);
    assert(lower_text(rest) =~= lower_text(bus) + ":"@ + lower_text(device) + "."@ + lower_text(
        function,
    ));
}

/// A bus id without a colon, or whose domain is no hexadecimal number, is no
/// slot.
pub proof fn law_no_slot_without_a_domain(domain: Seq<char>, rest: Seq<char>)
    requires
        unseparated(domain),
    ensures
        sysfs_slot(domain) is None,
        hex32(domain) is None ==> sysfs_slot(domain + ":"@ + rest) is None,
{
    lemma_domain(domain, rest);
    lemma_find_from(domain, seq![':'], 0);
    if let Some(p) = find(domain, seq![':']) {
        assert(domain.subrange(p, p + 1)[0] == domain[p]);
    }
}

// ── Rows ────────────────────────────────────────────────────────────────────

/// The trimmed fields of a row.
pub open spec fn columns(line: Seq<char>) -> Seq<Seq<char>> {
    split(line, ',').map_values(|f: Seq<char>| trim(f))
}

/// A row that names a slot and a VRAM total.
pub open spec fn is_gpu_row(line: Seq<char>) -> bool {
    let cols = columns(line);
    cols.len() >= 8 && sysfs_slot(cols[0]) is Some && field_number(cols[1]) is Some
}

/// A reading of a decimal field.
pub open spec fn decimal_reading(r: Reading, field: Seq<char>) -> bool {
    r matches Reading::Decimal(t) && t@ == field
}

/// A number that was read stands for the one in a field.
pub open spec fn field_reads(v: Option<u64>, field: Seq<char>) -> bool {
    match (v, field_number(field)) {
        (Some(a), Some(b)) => a == b,
        (None, None) => true,
        _ => false,
    }
}

/// `g` is what the row says.
pub open spec fn row_metrics(g: GpuMetrics, index: usize, line: Seq<char>) -> bool {
    let cols = columns(line);
    &&& g.index == index
    &&& sysfs_slot(cols[0]) == Some(g.pci_slot@)
    &&& g.vram_vendor is None
    &&& g.vram_total_bytes == mib_bytes(field_number(cols[1])->0)
    &&& g.vram_used_bytes == (match field_number(cols[2]) {
        Some(v) => mib_bytes(v),
        None => 0,
    })
    &&& decimal_reading(g.temperature, cols[3])
    &&& (g.gpu_busy_pct is Some <==> field_number(cols[4]) is Some)
    &&& (g.gpu_busy_pct matches Some(p) ==> p == field_number(cols[4])->0 % 0x1_0000_0000)
    &&& decimal_reading(g.power, cols[5])
    &&& field_reads(g.sclk_mhz, cols[6])
    &&& field_reads(g.mclk_mhz, cols[7])
}

/// Reads one row. `index` is the enumeration order of the row.
fn parse_row(index: usize, line: &[char]) -> (r: Option<GpuMetrics>)
    ensures
        r is Some <==> is_gpu_row(line@),
        r matches Some(g) ==> row_metrics(g, index, line@),
{
    let fields = split_chars(line, ',');
    let ghost cols = columns(line@);
    let ghost view = char_views(fields@);
    assert(cols.len() == fields@.len());
    if fields.len() < 8 {
        return None;
    }
    assert forall|i: int| 0 <= i < cols.len() implies #[trigger] cols[i] == trim(fields@[i]@) by {
        assert(view[i] == fields@[i]@);
    }
    let pci_slot = match normalize_slot_chars(trimmed(fields[0].as_slice())) {
        Some(s) => s,
        None => {
            return None;
        },
    };
    let vram_total_bytes: u64 = match parse_mib(trimmed(fields[1].as_slice())) {
        Some(v) => v,
        None => {
            return None;
        },
    };
    let vram_used_bytes: u64 = match parse_mib(trimmed(fields[2].as_slice())) {
        Some(v) => v,
        None => 0,
    };
    let gpu_busy_pct: Option<u32> = match parse_u64(trimmed(fields[4].as_slice())) {
        Some(v) => Some(low_half(v)),
        None => None,
    };
    Some(
        GpuMetrics {
            index,
            pci_slot,
            vram_vendor: None,
            vram_total_bytes,
            vram_used_bytes,
            temperature: Reading::Decimal(string_of(trimmed(fields[3].as_slice()))),
            power: Reading::Decimal(string_of(trimmed(fields[5].as_slice()))),
            gpu_busy_pct,
            sclk_mhz: parse_u64(trimmed(fields[6].as_slice())),
            mclk_mhz: parse_u64(trimmed(fields[7].as_slice())),
        },
    )
}

/// The lines that are not blank.
pub open spec fn rows(all: Seq<Seq<char>>) -> Seq<Seq<char>> {
    all.filter(|l: Seq<char>| trim(l).len() > 0)
}

/// The positions among the first `n` rows that describe a GPU.
pub open spec fn gpu_rows(all: Seq<Seq<char>>, n: int) -> Seq<int>
    decreases n,
{
    if n <= 0 {
        Seq::empty()
    } else if is_gpu_row(all[n - 1]) {
        gpu_rows(all, n - 1).push(n - 1)
    } else {
        gpu_rows(all, n - 1)
    }
}

/// `out` holds one entry for each of the first `n` rows that describe a GPU.
pub open spec fn describes(out: Seq<GpuMetrics>, all: Seq<Seq<char>>, n: int) -> bool {
    let at = gpu_rows(all, n);
    &&& out.len() == at.len()
    &&& forall|i: int|
        0 <= i < out.len() ==> row_metrics(#[trigger] out[i], at[i] as usize, all[at[i]])
}

/// Reads the whole CSV output (one GPU per row, no header). Rows without a
/// readable PCI bus id or VRAM total are skipped; a GPU's index is its
/// position among the rows that are not blank.
pub fn parse_csv(output: &str) -> (r: Vec<GpuMetrics>)
    ensures
        describes(r@, rows(lines(output@)), rows(lines(output@)).len() as int),
{
    let text = chars_of(output);
    let all = lines_of(text.as_slice());
    let ghost view = lines(output@);
    let ghost keep = |l: Seq<char>| trim(l).len() > 0;
    let mut out: Vec<GpuMetrics> = Vec::new();
    let mut index: usize = 0;
    proof {
        reveal(Seq::filter);
        assert(view.take(0).filter(keep) =~= Seq::<Seq<char>>::empty());
    }
    for i in 0..all.len()
        invariant
            view == char_views(all@),
            keep == (|l: Seq<char>| trim(l).len() > 0),
            index <= i,
            index == view.take(i as int).filter(keep).len(),
            describes(out@, view.take(i as int).filter(keep), index as int),
    {
        let line = all[i].as_slice();
        assert(view[i as int] == line@);
        let ghost before = view.take(i as int).filter(keep);
        let ghost next = view.take(i + 1).filter(keep);
        proof {
            reveal(Seq::filter);
            assert(view.take(i + 1).drop_last() =~= view.take(i as int));
            assert(view.take(i + 1).last() == line@);
        }
        if trimmed(line).len() > 0 {
            assert(next == before.push(line@));
            proof {
                lemma_describes_prefix(out@, before, next, index as int);
                assert(next[index as int] == line@);
            }
            if let Some(g) = parse_row(index, line) {
                proof {
                    lemma_describes_push(out@, g, next, index as int);
                }
                out.push(g);
            } else {
                proof {
                    lemma_describes_skip(out@, next, index as int);
                }
            }
            index += 1;
        } else {
            assert(next == before);
        }
    }
    assert(view.take(view.len() as int) =~= view);
    out
}

/// The positions of GPU rows lie among the first `n`.
proof fn lemma_gpu_rows_bound(all: Seq<Seq<char>>, n: int)
    ensures
        forall|i: int| 0 <= i < gpu_rows(all, n).len() ==> 0 <= #[trigger] gpu_rows(all, n)[i] < n,
    decreases n,
{
    if n > 0 {
        lemma_gpu_rows_bound(all, n - 1);
        let front = gpu_rows(all, n - 1);
        let at = gpu_rows(all, n);
        assert forall|i: int| 0 <= i < at.len() implies 0 <= #[trigger] at[i] < n by {
            if i < front.len() {
                assert(at[i] == front[i]);
            }
        }
    }
}

proof fn lemma_describes_prefix(
    out: Seq<GpuMetrics>,
    a: Seq<Seq<char>>,
    b: Seq<Seq<char>>,
    n: int,
)
    requires
        n <= a.len(),
        n <= b.len(),
        forall|i: int| 0 <= i < n ==> a[i] == b[i],
        describes(out, a, n),
    ensures
        describes(out, b, n),
{
    lemma_gpu_rows_prefix(a, b, n);
    lemma_gpu_rows_bound(a, n);
    let at = gpu_rows(a, n);
    assert forall|i: int| 0 <= i < out.len() implies row_metrics(
        #[trigger] out[i],
        at[i] as usize,
        b[at[i]],
    ) by {
        assert(a[at[i]] == b[at[i]]);
    }
}

proof fn lemma_describes_push(out: Seq<GpuMetrics>, g: GpuMetrics, all: Seq<Seq<char>>, n: int)
    requires
        0 <= n < all.len(),
        n <= usize::MAX,
        describes(out, all, n),
        is_gpu_row(all[n]),
        row_metrics(g, n as usize, all[n]),
    ensures
        describes(out.push(g), all, n + 1),
{
    let at = gpu_rows(all, n + 1);
    assert(at == gpu_rows(all, n).push(n));
    let next = out.push(g);
    assert forall|i: int| 0 <= i < next.len() implies row_metrics(
        #[trigger] next[i],
        at[i] as usize,
        all[at[i]],
    ) by {
        if i < out.len() {
            assert(next[i] == out[i]);
        }
    }
}

proof fn lemma_describes_skip(out: Seq<GpuMetrics>, all: Seq<Seq<char>>, n: int)
    requires
        0 <= n < all.len(),
        describes(out, all, n),
        !is_gpu_row(all[n]),
    ensures
        describes(out, all, n + 1),
{
    let at = gpu_rows(all, n + 1);
    assert(at == gpu_rows(all, n));
}

/// Rows further on do not matter for the first `n`.
proof fn lemma_gpu_rows_prefix(a: Seq<Seq<char>>, b: Seq<Seq<char>>, n: int)
    requires
        n <= a.len(),
        n <= b.len(),
        forall|i: int| 0 <= i < n ==> a[i] == b[i],
    ensures
        gpu_rows(a, n) == gpu_rows(b, n),
    decreases n,
{
    if n > 0 {
        lemma_gpu_rows_prefix(a, b, n - 1);
    }
}

/// A row is cut at its commas, and the space around each field does not count.
pub proof fn law_columns(line: Seq<char>, field: Seq<char>)
    requires
        forall|i: int| 0 <= i < field.len() ==> field[i] != ',',
    ensures
        columns(field) == seq![trim(field)],
        columns(line + seq![','] + field) == columns(line).push(trim(field)),
{
    law_split_of_pieces(line, ',', field);
    assert(columns(field) =~= seq![trim(field)]);
    assert(columns(line + seq![','] + field) =~= columns(line).push(trim(field)));
}

/// Sizes in MiB are given in bytes.
pub proof fn law_mebibytes(mib: nat)
    requires
        mib < 0x1000_0000_0000,
    ensures
        mib_bytes(mib) == mib * 1024 * 1024,
{
}

/// What a row says of a GPU: the fields are, in order, the bus id, the total
/// and the used memory in MiB, the temperature, the load, the power and the two
/// clocks. A row needs all of them, with a bus id and a total that can be read.
/// Memory in use that cannot be read counts as zero.
pub proof fn law_what_a_row_says(g: GpuMetrics, index: usize, line: Seq<char>)
    ensures
        is_gpu_row(line) <==> columns(line).len() >= 8 && sysfs_slot(columns(line)[0]) is Some
            && unsigned(columns(line)[1], 10, 0xFFFF_FFFF_FFFF_FFFF) is Some,
        row_metrics(g, index, line) ==> {
            &&& g.index == index
            &&& sysfs_slot(columns(line)[0]) == Some(g.pci_slot@)
            &&& g.vram_total_bytes == mib_bytes(
                unsigned(columns(line)[1], 10, 0xFFFF_FFFF_FFFF_FFFF)->0,
            )
            &&& (unsigned(columns(line)[2], 10, 0xFFFF_FFFF_FFFF_FFFF) matches Some(mib)
                ==> g.vram_used_bytes == mib_bytes(mib))
            &&& (unsigned(columns(line)[2], 10, 0xFFFF_FFFF_FFFF_FFFF) is None
                ==> g.vram_used_bytes == 0)
            &&& (g.temperature matches Reading::Decimal(t) && t@ == columns(line)[3])
            &&& (unsigned(columns(line)[4], 10, 0xFFFF_FFFF_FFFF_FFFF) matches Some(n) ==> n
                <= 0xFFFF_FFFF ==> (g.gpu_busy_pct matches Some(p) && p == n))
            &&& (g.power matches Reading::Decimal(t) && t@ == columns(line)[5])
            &&& (unsigned(columns(line)[6], 10, 0xFFFF_FFFF_FFFF_FFFF) matches Some(n) ==> (
            g.sclk_mhz matches Some(mhz) && mhz == n))
            &&& (unsigned(columns(line)[7], 10, 0xFFFF_FFFF_FFFF_FFFF) matches Some(n) ==> (
            g.mclk_mhz matches Some(mhz) && mhz == n))
        },
{
}

/// One GPU is listed for each row that describes one, in the order of the rows,
/// under the position of its row. Blank lines are no rows.
pub proof fn law_which_gpus_are_listed(
    out: Seq<GpuMetrics>,
    all: Seq<Seq<char>>,
    i: int,
    j: int,
    before: Seq<Seq<char>>,
    line: Seq<char>,
)
    requires
        describes(out, all, all.len() as int),
        0 <= i < out.len(),
        0 <= j < all.len(),
        all.len() <= usize::MAX,
    ensures
        out[i].index < all.len(),
        is_gpu_row(all[out[i].index as int]),
        row_metrics(out[i], out[i].index, all[out[i].index as int]),
        i + 1 < out.len() ==> out[i].index < out[i + 1].index,
        is_gpu_row(all[j]) ==> exists|k: int|
            0 <= k < out.len() && (#[trigger] out[k]).index == j,
        rows(before.push(line)) == if all_space(line) {
            rows(before)
        } else {
            rows(before).push(line)
        },
{
    let n = all.len() as int;
    let at = gpu_rows(all, n);
    lemma_gpu_rows_listed(all, n);
    assert(row_metrics(out[i], at[i] as usize, all[at[i]]));
    if i + 1 < out.len() {
        assert(row_metrics(out[i + 1], at[i + 1] as usize, all[at[i + 1]]));
        assert(at[i] < at[i + 1]);
    }
    if is_gpu_row(all[j]) {
        assert(at.contains(j));
        let k = at.index_of(j);
        assert(row_metrics(out[k], at[k] as usize, all[at[k]]));
        assert(out[k].index == j);
    }
    reveal(Seq::filter);
    let full = before.push(line);
    assert(full.drop_last() =~= before);
    assert(full.last() == line);
    lemma_blank(line);
}

/// The positions of GPU rows rise, and none is left out.
proof fn lemma_gpu_rows_listed(all: Seq<Seq<char>>, n: int)
    requires
        n <= all.len(),
    ensures
        forall|i: int|
            0 <= i < gpu_rows(all, n).len() ==> 0 <= #[trigger] gpu_rows(all, n)[i] < n
                && is_gpu_row(all[gpu_rows(all, n)[i]]),
        forall|i: int, k: int|
            0 <= i < k < gpu_rows(all, n).len() ==> #[trigger] gpu_rows(all, n)[i]
                < #[trigger] gpu_rows(all, n)[k],
        forall|j: int|
            0 <= j < n && is_gpu_row(#[trigger] all[j]) ==> gpu_rows(all, n).contains(j),
    decreases n,
{
    if n > 0 {
        lemma_gpu_rows_listed(all, n - 1);
        let before = gpu_rows(all, n - 1);
        let after = gpu_rows(all, n);
        assert forall|j: int| 0 <= j < n && is_gpu_row(#[trigger] all[j]) implies after.contains(
            j,
        ) by {
            if j < n - 1 {
                let k = before.index_of(j);
                assert(after[k] == j);
            } else {
                assert(after[after.len() - 1] == j);
            }
        }
    }
}

/// Nothing is left of a text exactly when it is all space.
proof fn lemma_blank(s: Seq<char>)
    ensures
        trim(s).len() == 0 <==> all_space(s),
{
    let nothing = Seq::<char>::empty();
    if all_space(s) {
        law_trim(s, nothing, nothing);
        assert(s + nothing + nothing =~= s);
    } else if trim(s).len() == 0 {
        lemma_trim_start_space(s);
        let t = trim_start(s);
        lemma_trim_end_nothing(t);
    }
}

proof fn lemma_trim_start_space(s: Seq<char>)
    ensures
        trim_start(s).len() == 0 ==> all_space(s),
        trim_start(s).len() > 0 ==> !is_space(trim_start(s)[0]),
    decreases s.len(),
{
    if s.len() > 0 && is_space(s[0]) {
        let rest = s.drop_first();
        lemma_trim_start_space(rest);
        if trim_start(s).len() == 0 {
            assert forall|i: int| 0 <= i < s.len() implies is_space(#[trigger] s[i]) by {
                if i > 0 {
                    assert(rest[i - 1] == s[i]);
                }
            }
        }
    }
}

proof fn lemma_trim_end_nothing(s: Seq<char>)
    ensures
        trim_end(s).len() == 0 && s.len() > 0 ==> is_space(s[0]),
    decreases s.len(),
{
    if s.len() > 0 && is_space(s.last()) {
        lemma_trim_end_nothing(s.drop_last());
    }
}

} // verus!
