//! API keys: the key file and authentication.

use vstd::prelude::*;
use vstd::slice::slice_subrange;
use crate::names::NameMap;
use crate::numbers::{decimal, to_decimal};
use crate::text::{
    all_space, cat, cat3, char_views, chars_of, find_char, law_split_once, law_trim, lines,
    lines_of, split_once, string_of, tight, trim, trimmed,
};

verus! {

/// Why an API keys file cannot be used.
#[derive(Debug)]
pub enum ApikeysError {
    /// The file could not be read; holds the operating system's words.
    Io(String),
    DuplicateLabel { label: String, line: usize },
    DuplicateKey { label: String, line: usize },
    MissingColon { line: usize },
    EmptyLabel { line: usize },
    EmptyKey { label: String, line: usize },
}

/// An error in terms of texts.
pub enum KeysProblem {
    Io(Seq<char>),
    DuplicateLabel { label: Seq<char>, line: usize },
    DuplicateKey { label: Seq<char>, line: usize },
    MissingColon { line: usize },
    EmptyLabel { line: usize },
    EmptyKey { label: Seq<char>, line: usize },
}

impl View for ApikeysError {
    type V = KeysProblem;

    open spec fn view(&self) -> KeysProblem {
        match self {
            ApikeysError::Io(text) => KeysProblem::Io(text@),
            ApikeysError::DuplicateLabel { label, line } => KeysProblem::DuplicateLabel {
                label: label@,
                line: *line,
            },
            ApikeysError::DuplicateKey { label, line } => KeysProblem::DuplicateKey {
                label: label@,
                line: *line,
            },
            ApikeysError::MissingColon { line } => KeysProblem::MissingColon { line: *line },
            ApikeysError::EmptyLabel { line } => KeysProblem::EmptyLabel { line: *line },
            ApikeysError::EmptyKey { label, line } => KeysProblem::EmptyKey {
                label: label@,
                line: *line,
            },
        }
    }
}

impl ApikeysError {
    /// The words for an error.
    pub open spec fn words(&self) -> Seq<char> {
        match self@ {
            KeysProblem::Io(text) => "failed to read apikeys file: "@ + text,
            KeysProblem::DuplicateLabel { label, line } => "duplicate label at line "@ + decimal(
                line as nat,
            ) + (": `"@ + label + "`"@),
            KeysProblem::DuplicateKey { label, line } => "duplicate key at line "@ + decimal(
                line as nat,
            ) + (" (label `"@ + label + "`)"@),
            KeysProblem::MissingColon { line } => "missing `:` separator at line "@ + decimal(
                line as nat,
            ),
            KeysProblem::EmptyLabel { line } => "empty label at line "@ + decimal(line as nat),
            KeysProblem::EmptyKey { label, line } => "empty key at line "@ + decimal(line as nat) + (
            " (label `"@ + label + "`)"@),
        }
    }

    /// Describes an error.
    pub fn message(&self) -> (r: String)
        ensures
            r@ == self.words(),
    {
        match self {
            ApikeysError::Io(text) => cat("failed to read apikeys file: ", text.as_str()),
            ApikeysError::DuplicateLabel { label, line } => {
                let tail = cat3(": `", label.as_str(), "`");
                at_line("duplicate label at line ", *line, tail.as_str())
            },
            ApikeysError::DuplicateKey { label, line } => {
                let tail = cat3(" (label `", label.as_str(), "`)");
                at_line("duplicate key at line ", *line, tail.as_str())
            },
            ApikeysError::MissingColon { line } => {
                let number = to_decimal(*line as u64);
                cat("missing `:` separator at line ", number.as_str())
            },
            ApikeysError::EmptyLabel { line } => {
                let number = to_decimal(*line as u64);
                cat("empty label at line ", number.as_str())
            },
            ApikeysError::EmptyKey { label, line } => {
                let tail = cat3(" (label `", label.as_str(), "`)");
                at_line("empty key at line ", *line, tail.as_str())
            },
        }
    }
}

fn at_line(head: &str, line: usize, tail: &str) -> (r: String)
    ensures
        r@ == head@ + decimal(line as nat) + tail@,
{
    let number = to_decimal(line as u64);
    cat3(head, number.as_str(), tail)
}

// ── The key file ────────────────────────────────────────────────────────────

/// What a line of the key file says.
pub enum KeyLine {
    /// Blank or a comment.
    Nothing,
    MissingColon,
    EmptyLabel,
    EmptyKey(Seq<char>),
    Entry { label: Seq<char>, key: Seq<char> },
}

/// Reads a line: `label: key`, split at the first colon.
pub open spec fn key_line(line: Seq<char>) -> KeyLine {
    let text = trim(line);
    if text.len() == 0 || text[0] == '#' {
        KeyLine::Nothing
    } else {
        match split_once(text, ':') {
            None => KeyLine::MissingColon,
            Some((label, key)) => if trim(label).len() == 0 {
                KeyLine::EmptyLabel
            } else if trim(key).len() == 0 {
                KeyLine::EmptyKey(trim(label))
            } else {
                KeyLine::Entry { label: trim(label), key: trim(key) }
            },
        }
    }
}

/// What has been read: each key with its label, and the labels.
pub struct KeysRead {
    pub keys: Map<Seq<char>, Seq<char>>,
    pub labels: Set<Seq<char>>,
}

/// Reads the first `n` lines. The first line that is malformed, or repeats a
/// label or a key, decides.
pub open spec fn keys_read(all: Seq<Seq<char>>, n: int) -> Result<KeysRead, KeysProblem>
    decreases n,
{
    if n <= 0 {
        Ok(KeysRead { keys: Map::empty(), labels: Set::empty() })
    } else {
        match keys_read(all, n - 1) {
            Err(e) => Err(e),
            Ok(so_far) => {
                let line = n as usize;
                match key_line(all[n - 1]) {
                    KeyLine::Nothing => Ok(so_far),
                    KeyLine::MissingColon => Err(KeysProblem::MissingColon { line }),
                    KeyLine::EmptyLabel => Err(KeysProblem::EmptyLabel { line }),
                    KeyLine::EmptyKey(label) => Err(KeysProblem::EmptyKey { label, line }),
                    KeyLine::Entry { label, key } => if so_far.labels.contains(label) {
                        Err(KeysProblem::DuplicateLabel { label, line })
                    } else if so_far.keys.dom().contains(key) {
                        Err(KeysProblem::DuplicateKey { label, line })
                    } else {
                        Ok(
                            KeysRead {
                                keys: so_far.keys.insert(key, label),
                                labels: so_far.labels.insert(label),
                            },
                        )
                    },
                }
            },
        }
    }
}

/// Reads a whole key file.
pub open spec fn keys_in(input: Seq<char>) -> Result<KeysRead, KeysProblem> {
    keys_read(lines(input), lines(input).len() as int)
}

/// An error sticks, whatever follows.
proof fn lemma_error_sticks(all: Seq<Seq<char>>, i: int, n: int)
    requires
        i <= n,
        keys_read(all, i) is Err,
    ensures
        keys_read(all, n) == keys_read(all, i),
    decreases n - i,
{
    if i < n {
        lemma_error_sticks(all, i, n - 1);
    }
}

/// A table of strings as a map of texts.
pub open spec fn text_map(m: Map<Seq<char>, String>) -> Map<Seq<char>, Seq<char>> {
    m.map_values(|s: String| s@)
}

/// A parsed, ready-to-query set of API keys.
#[derive(Debug)]
pub struct ApikeysStore {
    /// Key → label.
    keys: NameMap<String>,
}

impl View for ApikeysStore {
    type V = Map<Seq<char>, Seq<char>>;

    closed spec fn view(&self) -> Map<Seq<char>, Seq<char>> {
        text_map(self.keys@)
    }
}

/// What is in one line.
enum LineRead {
    Nothing,
    MissingColon,
    EmptyLabel,
    EmptyKey(String),
    Entry(String, String),
}

spec fn line_view(l: LineRead) -> KeyLine {
    match l {
        LineRead::Nothing => KeyLine::Nothing,
        LineRead::MissingColon => KeyLine::MissingColon,
        LineRead::EmptyLabel => KeyLine::EmptyLabel,
        LineRead::EmptyKey(label) => KeyLine::EmptyKey(label@),
        LineRead::Entry(label, key) => KeyLine::Entry { label: label@, key: key@ },
    }
}

fn read_line(line: &[char]) -> (r: LineRead)
    ensures
        line_view(r) == key_line(line@),
{
    let text = trimmed(line);
    if text.len() == 0 || text[0] == '#' {
        return LineRead::Nothing;
    }
    match find_char(text, ':') {
        None => LineRead::MissingColon,
        Some(p) => {
            let before = slice_subrange(text, 0, p);
            let after = slice_subrange(text, p + 1, text.len());
            assert(before@ =~= text@.take(p as int));
            assert(after@ =~= text@.skip(p + 1));
            let label = trimmed(before);
            let key = trimmed(after);
            if label.len() == 0 {
                LineRead::EmptyLabel
            } else if key.len() == 0 {
                LineRead::EmptyKey(string_of(label))
            } else {
                LineRead::Entry(string_of(label), string_of(key))
            }
        },
    }
}

impl ApikeysStore {
    /// Names occur once.
    pub closed spec fn wf(&self) -> bool {
        self.keys.wf()
    }

    /// Parses API keys from the contents of a key file.
    pub fn parse(input: &str) -> (r: Result<ApikeysStore, ApikeysError>)
        ensures
            match keys_in(input@) {
                Ok(read) => r matches Ok(store) && store.wf() && store@ == read.keys,
                Err(problem) => r matches Err(e) && e@ == problem,
            },
    {
        let text = chars_of(input);
        let found = lines_of(text.as_slice());
        let ghost all = lines(input@);
        let mut keys: NameMap<String> = NameMap::new();
        let mut labels: NameMap<()> = NameMap::new();
        let total: usize = found.len();
        proof {
            assert(text_map(keys@) =~= Map::<Seq<char>, Seq<char>>::empty());
            assert(labels@.dom() =~= Set::<Seq<char>>::empty());
        }
        for i in 0..total
            invariant
                all == lines(input@),
                char_views(found@) == all,
                total == found@.len(),
                total == all.len(),
                keys.wf(),
                labels.wf(),
                keys_read(all, i as int) matches Ok(read) && read.keys == text_map(keys@)
                    && read.labels == labels@.dom(),
        {
            let line: usize = i + 1;
            assert(all[i as int] == found@[i as int]@);
            let ghost kmap = keys@;
            match read_line(found[i].as_slice()) {
                LineRead::Nothing => {},
                LineRead::MissingColon => {
                    proof {
                        lemma_error_sticks(all, i + 1, total as int);
                    }
                    return Err(ApikeysError::MissingColon { line });
                },
                LineRead::EmptyLabel => {
                    proof {
                        lemma_error_sticks(all, i + 1, total as int);
                    }
                    return Err(ApikeysError::EmptyLabel { line });
                },
                LineRead::EmptyKey(label) => {
                    proof {
                        lemma_error_sticks(all, i + 1, total as int);
                    }
                    return Err(ApikeysError::EmptyKey { label, line });
                },
                LineRead::Entry(label, key) => {
                    if labels.contains(label.as_str()) {
                        proof {
                            lemma_error_sticks(all, i + 1, total as int);
                        }
                        return Err(ApikeysError::DuplicateLabel { label, line });
                    }
                    if keys.contains(key.as_str()) {
                        proof {
                            lemma_error_sticks(all, i + 1, total as int);
                        }
                        return Err(ApikeysError::DuplicateKey { label, line });
                    }
                    labels.insert(label.as_str(), ());
                    keys.insert(key.as_str(), label);
                    proof {
                        assert(text_map(keys@) =~= text_map(kmap).insert(key@, label@));
                        assert(labels@.dom() =~= keys_read(all, i as int)->Ok_0.labels.insert(
                            label@,
                        ));
                    }
                },
            }
        }
        Ok(ApikeysStore { keys })
    }

    /// The label of a key, or none if the key is unknown.
    pub fn authenticate(&self, key: &str) -> (r: Option<&str>)
        requires
            self.wf(),
        ensures
            r is Some <==> self@.dom().contains(key@),
            r matches Some(label) ==> label@ == self@[key@],
    {
        match self.keys.get(key) {
            Some(label) => Some(label.as_str()),
            None => None,
        }
    }

    /// Whether no keys are configured, in which case every request is denied.
    pub fn is_empty(&self) -> (r: bool)
        requires
            self.wf(),
        ensures
            r == (self@.dom() =~= Set::<Seq<char>>::empty()),
    {
        let r = self.keys.entries.len() == 0;
        proof {
            if !r {
                crate::names::lemma_entry(self.keys.entries@, 0);
                assert(self@.dom().contains(self.keys.entries@[0].0@));
            }
        }
        r
    }

    /// Number of configured keys.
    pub fn len(&self) -> (r: usize)
        requires
            self.wf(),
        ensures
            r == self@.dom().len(),
    {
        proof {
            lemma_dom_len(self.keys.entries@);
            assert(self@.dom() =~= crate::names::entries_map(self.keys.entries@).dom());
        }
        self.keys.entries.len()
    }

    /// A store without keys: all requests are denied.
    pub fn empty() -> (r: ApikeysStore)
        ensures
            r.wf(),
            r@ == Map::<Seq<char>, Seq<char>>::empty(),
    {
        let keys: NameMap<String> = NameMap::new();
        assert(text_map(keys@) =~= Map::<Seq<char>, Seq<char>>::empty());
        ApikeysStore { keys }
    }
}

/// A table has as many names as entries.
proof fn lemma_dom_len<V>(entries: Seq<(String, V)>)
    requires
        crate::names::distinct_keys(entries),
    ensures
        crate::names::entries_map(entries).dom().finite(),
        crate::names::entries_map(entries).dom().len() == entries.len(),
    decreases entries.len(),
{
    let dom = crate::names::entries_map(entries).dom();
    if entries.len() == 0 {
        assert(dom =~= Set::empty());
    } else {
        let front = entries.drop_last();
        let last = entries.last();
        assert(crate::names::distinct_keys(front)) by {
            assert forall|i: int, j: int| 0 <= i < j < front.len() implies (#[trigger] front[i]).0@
                != (#[trigger] front[j]).0@ by {
                assert(entries[i].0@ != entries[j].0@);
            }
        }
        lemma_dom_len(front);
        assert(!crate::names::has_key(front, last.0@)) by {
            if crate::names::has_key(front, last.0@) {
                let k = crate::names::key_at(front, last.0@);
                assert(entries[k].0@ != entries[entries.len() - 1].0@);
            }
        }
        crate::names::lemma_push_entry(front, last);
        assert(front.push(last) =~= entries);
        assert(dom =~= crate::names::entries_map(front).dom().insert(last.0@));
    }
}

// ── Laws ────────────────────────────────────────────────────────────────────

/// A line of the file gives a key its label.
pub open spec fn declares(all: Seq<Seq<char>>, i: int, label: Seq<char>, key: Seq<char>) -> bool {
    key_line(all[i]) == (KeyLine::Entry { label, key })
}

/// A file that is accepted gives every key exactly the label of the line that
/// declares it, and no other key is known.
pub proof fn law_keys_are_those_of_the_file(all: Seq<Seq<char>>, n: int)
    requires
        0 <= n <= all.len(),
        keys_read(all, n) is Ok,
    ensures
        forall|i: int, label: Seq<char>, key: Seq<char>|
            0 <= i < n && #[trigger] declares(all, i, label, key) ==> keys_read(
                all,
                n,
            )->Ok_0.keys.dom().contains(key) && keys_read(all, n)->Ok_0.keys[key] == label
                && keys_read(all, n)->Ok_0.labels.contains(label),
        forall|key: Seq<char>| #[trigger]
            keys_read(all, n)->Ok_0.keys.dom().contains(key) ==> exists|i: int|
                0 <= i < n && #[trigger] declares(all, i, keys_read(all, n)->Ok_0.keys[key], key),
    decreases n,
{
    if n > 0 {
        law_keys_are_those_of_the_file(all, n - 1);
        let before = keys_read(all, n - 1)->Ok_0;
        let read = keys_read(all, n)->Ok_0;
        assert forall|i: int, label: Seq<char>, key: Seq<char>|
            0 <= i < n && #[trigger] declares(all, i, label, key) implies read.keys.dom().contains(
            key,
        ) && read.keys[key] == label && read.labels.contains(label) by {
            if i < n - 1 {
                assert(before.keys.dom().contains(key));
            }
        }
        assert forall|key: Seq<char>| #[trigger] read.keys.dom().contains(key) implies exists|i: int|
            0 <= i < n && #[trigger] declares(all, i, read.keys[key], key) by {
            if before.keys.dom().contains(key) {
                let i = choose|i: int|
                    0 <= i < n - 1 && #[trigger] declares(all, i, before.keys[key], key);
                assert(read.keys[key] == before.keys[key]);
                assert(declares(all, i, read.keys[key], key));
            } else {
                assert(declares(all, n - 1, read.keys[key], key));
            }
        }
    }
}

/// A line of the key file is `label: key`; whitespace around the two does not
/// count. A key may hold colons, a label may not. Blank lines and comments say
/// nothing; a line without a colon, a label or a key is malformed.
pub proof fn law_key_lines(
    a: Seq<char>,
    label: Seq<char>,
    b: Seq<char>,
    c: Seq<char>,
    key: Seq<char>,
    d: Seq<char>,
)
    requires
        all_space(a),
        all_space(b),
        all_space(c),
        all_space(d),
        tight(label),
        tight(key),
        forall|i: int| 0 <= i < label.len() ==> label[i] != ':',
        forall|i: int| 0 <= i < b.len() ==> b[i] != ':',
        label.len() > 0 ==> label[0] != '#',
    ensures
        label.len() > 0 && key.len() > 0 ==> key_line(a + (label + b + seq![':'] + c + key) + d) == (
        KeyLine::Entry { label, key }),
        label.len() > 0 ==> key_line(a + label + d) == KeyLine::MissingColon,
        key_line(a) == KeyLine::Nothing,
        key_line(a + (seq!['#'] + key) + d) == KeyLine::Nothing,
        label.len() > 0 ==> key_line(a + (label + b + seq![':']) + d) == KeyLine::EmptyKey(label),
        key.len() > 0 ==> key_line(a + (seq![':'] + c + key) + d) == KeyLine::EmptyLabel,
{
    let nothing = Seq::<char>::empty();
    let colon = seq![':'];
    if label.len() > 0 && key.len() > 0 {
        let text = label + b + colon + c + key;
        assert(text.last() == key.last());
        law_trim(a, text, d);
        law_split_once(label + b, ':', c + key);
        assert(label + b + colon + (c + key) =~= text);
        law_trim(nothing, label, b);
        assert(nothing + label + b =~= label + b);
        law_trim(c, key, nothing);
        assert(c + key + nothing =~= c + key);
        assert(text[0] == label[0]);
    }
    if label.len() > 0 {
        law_trim(a, label, d);
        law_split_once(label, ':', nothing);
        let text = label + b + colon;
        assert(text.last() == ':');
        law_trim(a, text, d);
        law_split_once(label + b, ':', nothing);
        assert(label + b + colon + nothing =~= text);
        law_trim(nothing, label, b);
        assert(nothing + label + b =~= label + b);
        law_trim(nothing, nothing, nothing);
        assert(nothing + nothing + nothing =~= nothing);
        assert(text[0] == label[0]);
    }
    law_trim(a, nothing, nothing);
    assert(a + nothing + nothing =~= a);
    let comment = seq!['#'] + key;
    if key.len() > 0 {
        assert(comment.last() == key.last());
    }
    law_trim(a, comment, d);
    if key.len() > 0 {
        let text = colon + c + key;
        assert(text.last() == key.last());
        law_trim(a, text, d);
        law_split_once(nothing, ':', c + key);
        assert(nothing + colon + (c + key) =~= text);
        law_trim(nothing, nothing, nothing);
        assert(nothing + nothing + nothing =~= nothing);
    }
}

/// A file with a malformed line, or in which a label or a key stands twice, is
/// refused; any other is accepted.
pub proof fn law_which_key_files_are_accepted(all: Seq<Seq<char>>, n: int, i: int, j: int)
    requires
        0 <= n <= all.len(),
    ensures
        0 <= i < n && (key_line(all[i]) is MissingColon || key_line(all[i]) is EmptyLabel
            || key_line(all[i]) is EmptyKey) ==> keys_read(all, n) is Err,
        0 <= i < j < n && (key_line(all[i]) matches KeyLine::Entry { label, key } && (key_line(
            all[j],
        ) matches KeyLine::Entry { label: l, key: k } && (label == l || key == k)))
            ==> keys_read(all, n) is Err,
        (forall|x: int| 0 <= x < n ==> key_line(#[trigger] all[x]) is Nothing || key_line(all[x])
            is Entry) && (forall|x: int, y: int|
            0 <= x < y < n && key_line(#[trigger] all[x]) is Entry && key_line(#[trigger] all[y])
                is Entry ==> key_line(all[x])->label != key_line(all[y])->label && key_line(
                all[x],
            )->Entry_key != key_line(all[y])->Entry_key) ==> keys_read(all, n) is Ok,
    decreases n,
{
    if n > 0 {
        law_which_key_files_are_accepted(all, n - 1, i, j);
        if keys_read(all, n) is Ok {
            law_keys_are_those_of_the_file(all, n - 1);
            if 0 <= i < j && j == n - 1 {
                if let KeyLine::Entry { label, key } = key_line(all[i]) {
                    assert(declares(all, i, label, key));
                }
            }
        } else if keys_read(all, n - 1) is Ok {
            lemma_labels_of_lines(all, n - 1);
            law_keys_are_those_of_the_file(all, n - 1);
            let read = keys_read(all, n - 1)->Ok_0;
            if let KeyLine::Entry { label, key } = key_line(all[n - 1]) {
                if read.labels.contains(label) {
                    let x = choose|x: int|
                        0 <= x < n - 1 && key_line(#[trigger] all[x]) is Entry && key_line(
                            all[x],
                        )->label == label;
                    assert(key_line(all[x]) is Entry);
                } else {
                    assert(read.keys.dom().contains(key));
                    let x = choose|x: int|
                        0 <= x < n - 1 && #[trigger] declares(all, x, read.keys[key], key);
                    assert(key_line(all[x]) is Entry);
                }
            }
        }
    }
}

proof fn lemma_labels_of_lines(all: Seq<Seq<char>>, n: int)
    requires
        0 <= n <= all.len(),
        keys_read(all, n) is Ok,
    ensures
        forall|label: Seq<char>| #[trigger]
            keys_read(all, n)->Ok_0.labels.contains(label) ==> exists|x: int|
                0 <= x < n && key_line(#[trigger] all[x]) is Entry && key_line(all[x])->label
                    == label,
    decreases n,
{
    if n > 0 {
        lemma_labels_of_lines(all, n - 1);
        let before = keys_read(all, n - 1)->Ok_0;
        let read = keys_read(all, n)->Ok_0;
        assert forall|label: Seq<char>| #[trigger] read.labels.contains(label) implies exists|x: int|
            0 <= x < n && key_line(#[trigger] all[x]) is Entry && key_line(all[x])->label == label by {
            if before.labels.contains(label) {
                let x = choose|x: int|
                    0 <= x < n - 1 && key_line(#[trigger] all[x]) is Entry && key_line(
                        all[x],
                    )->label == label;
                assert(key_line(all[x]) is Entry);
            } else {
                assert(key_line(all[n - 1]) is Entry);
            }
        }
    }
}

/// The first line that cannot be accepted decides, and the error tells it by its
/// number, counted from one. A repeated label is told before a repeated key.
pub proof fn law_first_bad_line_is_told(all: Seq<Seq<char>>, i: int, n: int)
    requires
        0 <= i < n <= all.len() <= usize::MAX,
        keys_read(all, i) is Ok,
    ensures
        key_line(all[i]) is MissingColon ==> keys_read(all, n) == Err::<KeysRead, KeysProblem>(
            KeysProblem::MissingColon { line: (i + 1) as usize },
        ),
        key_line(all[i]) is EmptyLabel ==> keys_read(all, n) == Err::<KeysRead, KeysProblem>(
            KeysProblem::EmptyLabel { line: (i + 1) as usize },
        ),
        key_line(all[i]) matches KeyLine::EmptyKey(label) ==> keys_read(all, n) == Err::<
            KeysRead,
            KeysProblem,
        >(KeysProblem::EmptyKey { label, line: (i + 1) as usize }),
        key_line(all[i]) matches KeyLine::Entry { label, key } ==> keys_read(
            all,
            i,
        )->Ok_0.labels.contains(label) ==> keys_read(all, n) == Err::<KeysRead, KeysProblem>(
            KeysProblem::DuplicateLabel { label, line: (i + 1) as usize },
        ),
        key_line(all[i]) matches KeyLine::Entry { label, key } ==> !keys_read(
            all,
            i,
        )->Ok_0.labels.contains(label) && keys_read(all, i)->Ok_0.keys.dom().contains(key)
            ==> keys_read(all, n) == Err::<KeysRead, KeysProblem>(
            KeysProblem::DuplicateKey { label, line: (i + 1) as usize },
        ),
{
    if keys_read(all, i + 1) is Err {
        lemma_error_sticks(all, i + 1, n);
    }
}

/// A key file is read line by line, and all lines count.
pub proof fn law_whole_files_are_read(input: Seq<char>)
    ensures
        keys_in(input) == keys_read(lines(input), lines(input).len() as int),
{
}

/// What is said of a key file that is not accepted.
pub proof fn law_words_for_key_files(e: ApikeysError)
    ensures
        e@ matches KeysProblem::Io(text) ==> e.words() == "failed to read apikeys file: "@ + text,
        e@ matches KeysProblem::MissingColon { line } ==> e.words()
            == "missing `:` separator at line "@ + decimal(line as nat),
        e@ matches KeysProblem::EmptyLabel { line } ==> e.words() == "empty label at line "@ + decimal(
            line as nat,
        ),
        e@ matches KeysProblem::EmptyKey { label, line } ==> e.words() == "empty key at line "@
            + decimal(line as nat) + (" (label `"@ + label + "`)"@),
        e@ matches KeysProblem::DuplicateLabel { label, line } ==> e.words()
            == "duplicate label at line "@ + decimal(line as nat) + (": `"@ + label + "`"@),
        e@ matches KeysProblem::DuplicateKey { label, line } ==> e.words()
            == "duplicate key at line "@ + decimal(line as nat) + (" (label `"@ + label + "`)"@),
{
}

} // verus!
