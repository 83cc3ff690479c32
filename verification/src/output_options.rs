//! What is shown of decode events, and in which columns.
use vstd::prelude::*;
use vstd::string::*;
use crate::json::{is_listed, listed};
use crate::text::{find_char, position_of, same};

verus! {

pub const DEFAULT_FIELDS: [&'static str; 7] = [
    "time", "mode", "snr", "dt", "freq", "ap_type", "message",
];

pub const ALLOWED_FIELDS: [&'static str; 20] = [
    "time", "mode", "snr", "dt", "freq", "message", "type", "fec", "bp_iterations", "osd_pass",
    "hard_errors", "pass", "hashes", "payload", "assisted", "ap_type", "confidence",
    "questionable", "grid", "window_start_sample",
];

pub const DETAILED_FIELDS: [&'static str; 3] = ["type", "fec", "bp_iterations"];

pub const DIAGNOSTIC_FIELDS: [&'static str; 7] = [
    "osd_pass", "hard_errors", "pass", "confidence", "questionable", "hashes", "payload",
];

/// Fields that call for diagnostics of the first level.
pub const LEVEL_ONE_FIELDS: [&'static str; 7] = [
    "type", "grid", "fec", "bp_iterations", "osd_pass", "hard_errors", "pass",
];

#[derive(Clone, Copy, Debug, Eq, PartialEq, Structural)]
pub enum OutputFormat {
    Text,
    Jsonl,
}

impl Default for OutputFormat {
    fn default() -> (r: Self)
        ensures
            r == OutputFormat::Text,
    {
        OutputFormat::Text
    }
}

impl OutputFormat {
    pub open spec fn of_name(value: Seq<char>) -> Option<Self> {
        if value == "text"@ {
            Some(OutputFormat::Text)
        } else if value == "jsonl"@ {
            Some(OutputFormat::Jsonl)
        } else {
            None
        }
    }

    /// Reads a name.
    pub fn parse(value: &str) -> (r: Result<Self, String>)
        ensures
            match r {
                Ok(format) => OutputFormat::of_name(value@) == Some(format),
                Err(error) => OutputFormat::of_name(value@) is None && error@
                    == "output format must be text or jsonl"@,
            },
    {
        if same(value, "text") {
            Ok(OutputFormat::Text)
        } else if same(value, "jsonl") {
            Ok(OutputFormat::Jsonl)
        } else {
            Err("output format must be text or jsonl".to_owned())
        }
    }
}

impl std::str::FromStr for OutputFormat {
    type Err = String;

    fn from_str(value: &str) -> (r: Result<Self, String>)
        ensures
            match r {
                Ok(format) => OutputFormat::of_name(value@) == Some(format),
                Err(error) => OutputFormat::of_name(value@) is None && error@
                    == "output format must be text or jsonl"@,
            },
    {
        OutputFormat::parse(value)
    }
}

#[derive(Clone, Debug, Eq, PartialEq)]
pub struct OutputOptions {
    pub format: OutputFormat,
    pub verbosity: u8,
    pub fields: Option<Vec<String>>,
    pub stats: bool,
    pub quiet: bool,
    pub slot_separators: bool,
}

impl Default for OutputOptions {
    fn default() -> (r: Self)
        ensures
            r.format == OutputFormat::Text,
            r.verbosity == 0,
            r.fields is None,
            !r.stats,
            !r.quiet,
            r.slot_separators,
    {
        OutputOptions {
            format: OutputFormat::Text,
            verbosity: 0,
            fields: None,
            stats: false,
            quiet: false,
            slot_separators: true,
        }
    }
}

/// The parts of a text between commas.
pub open spec fn split_commas(s: Seq<char>) -> Seq<Seq<char>>
    decreases s.len(),
{
    let at = find_char(s, ',');
    if 0 <= at < s.len() {
        seq![s.take(at)] + split_commas(s.skip(at + 1))
    } else {
        seq![s]
    }
}

/// Texts with commas between them.
pub open spec fn joined(parts: Seq<Seq<char>>) -> Seq<char>
    decreases parts.len(),
{
    if parts.len() == 0 {
        Seq::empty()
    } else if parts.len() == 1 {
        parts[0]
    } else {
        joined(parts.drop_last()) + ","@ + parts.last()
    }
}

/// What is wrong with the first field from `from` on that is wrong, if any.
pub open spec fn field_complaint(parts: Seq<Seq<char>>, from: int) -> Option<Seq<char>>
    decreases parts.len() - from,
{
    if from >= parts.len() {
        None
    } else if parts[from].len() == 0 {
        Some("field names must not be empty"@)
    } else if !listed(ALLOWED_FIELDS@, parts[from]) {
        Some(
            "unknown output field: "@ + parts[from]
                + "; supported fields: time, mode, snr, dt, freq, message, type, fec, bp_iterations, osd_pass, hard_errors, pass, hashes, payload, assisted, ap_type, confidence, questionable, grid, window_start_sample"@,
        )
    } else if parts.take(from).contains(parts[from]) {
        Some("duplicate output field: "@ + parts[from])
    } else {
        field_complaint(parts, from + 1)
    }
}

/// The fields that a list names, or what is wrong with it.
pub open spec fn fields_of(value: Seq<char>) -> Result<Seq<Seq<char>>, Seq<char>> {
    if value.len() == 0 {
        Err("fields must not be empty"@)
    } else {
        match field_complaint(split_commas(value), 0) {
            Some(error) => Err(error),
            None => Ok(split_commas(value)),
        }
    }
}

fn split(s: &str) -> (r: Vec<String>)
    ensures
        r.deep_view() == split_commas(s@),
{
    let n: usize = s.unicode_len();
    let mut out: Vec<String> = Vec::new();
    let mut from: usize = 0;
    assert(s@.skip(0) =~= s@);
    assert(out.deep_view() + split_commas(s@) =~= split_commas(s@));
    loop
        invariant
            from <= n,
            n == s@.len(),
            split_commas(s@) == out.deep_view() + split_commas(s@.skip(from as int)),
        decreases n - from,
    {
        let at: usize = position_of(s, ',', from);
        let part: String = s.substring_char(from, at).to_owned();
        let ghost rest = s@.skip(from as int);
        let ghost before = out.deep_view();
        assert(part@ =~= rest.take(at - from));
        out.push(part);
        assert(out.deep_view() =~= before.push(part@));
        if at >= n {
            proof {
                assert(rest.take(at - from) =~= rest);
                assert(before + seq![part@] =~= before.push(part@));
            }
            return out;
        }
        proof {
            assert(rest.skip(at - from + 1) =~= s@.skip(at + 1));
            let tail = split_commas(s@.skip(at + 1));
            assert(before + (seq![part@] + tail) =~= before.push(part@) + tail);
        }
        from = at + 1;
    }
}

fn holds(parts: &Vec<String>, before: usize, word: &str) -> (r: bool)
    requires
        before <= parts.len(),
    ensures
        r == parts.deep_view().take(before as int).contains(word@),
{
    let mut i: usize = 0;
    while i < before
        invariant
            i <= before <= parts.len(),
            forall|k: int| 0 <= k < i ==> #[trigger] parts.deep_view()[k] != word@,
        decreases before - i,
    {
        assert(parts.deep_view()[i as int] == parts@[i as int]@);
        if same(parts[i].as_str(), word) {
            assert(parts.deep_view().take(before as int)[i as int] == word@);
            return true;
        }
        i = i + 1;
    }
    false
}

fn join(parts: &Vec<String>) -> (r: String)
    ensures
        r@ == joined(parts.deep_view()),
{
    let mut out: String = String::new();
    let mut i: usize = 0;
    let ghost all = parts.deep_view();
    assert(all.take(0) =~= Seq::<Seq<char>>::empty());
    while i < parts.len()
        invariant
            i <= parts.len(),
            all == parts.deep_view(),
            out@ == joined(all.take(i as int)),
        decreases parts.len() - i,
    {
        let ghost next = all.take(i + 1);
        assert(next.drop_last() =~= all.take(i as int));
        assert(next.last() == parts@[i as int]@);
        if i > 0 {
            out.append(",");
        }
        let ghost before = out@;
        out.append(parts[i].as_str());
        assert(i == 0 ==> out@ =~= next[0]);
        i = i + 1;
    }
    assert(all.take(parts.len() as int) =~= all);
    out
}

fn copied(fields: &[&'static str], out: &mut Vec<String>)
    ensures
        final(out).deep_view() == old(out).deep_view() + names_of(fields@),
{
    let ghost before = out.deep_view();
    let mut i: usize = 0;
    assert(before + names_of(fields@).take(0) =~= before);
    while i < fields.len()
        invariant
            i <= fields@.len(),
            out.deep_view() =~= before + names_of(fields@).take(i as int),
        decreases fields@.len() - i,
    {
        let name: String = fields[i].to_owned();
        let ghost prior = out.deep_view();
        out.push(name);
        assert(out.deep_view() =~= prior.push(name@));
        i = i + 1;
    }
    assert(names_of(fields@).take(fields@.len() as int) =~= names_of(fields@));
}

pub open spec fn names_of(fields: Seq<&'static str>) -> Seq<Seq<char>> {
    fields.map_values(|name: &'static str| name@)
}

impl OutputOptions {
    /// The fields that a comma-separated list names.
    pub fn parse_fields(value: &str) -> (r: Result<Vec<String>, String>)
        ensures
            match r {
                Ok(fields) => fields_of(value@) == Ok::<Seq<Seq<char>>, Seq<char>>(
                    fields.deep_view(),
                ),
                Err(error) => fields_of(value@) == Err::<Seq<Seq<char>>, Seq<char>>(error@),
            },
    {
        if value.unicode_len() == 0 {
            return Err("fields must not be empty".to_owned());
        }
        let parts: Vec<String> = split(value);
        let ghost all = parts.deep_view();
        let mut i: usize = 0;
        while i < parts.len()
            invariant
                i <= parts.len(),
                value@.len() > 0,
                all == parts.deep_view(),
                all == split_commas(value@),
                field_complaint(all, 0) == field_complaint(all, i as int),
            decreases parts.len() - i,
        {
            assert(all[i as int] == parts@[i as int]@);
            let field: &str = parts[i].as_str();
            if field.unicode_len() == 0 {
                return Err("field names must not be empty".to_owned());
            }
            if !is_listed(&ALLOWED_FIELDS, field) {
                let mut error: String = "unknown output field: ".to_owned();
                error.append(field);
                error.append(
                    "; supported fields: time, mode, snr, dt, freq, message, type, fec, bp_iterations, osd_pass, hard_errors, pass, hashes, payload, assisted, ap_type, confidence, questionable, grid, window_start_sample",
                );
                return Err(error);
            }
            if holds(&parts, i, field) {
                let mut error: String = "duplicate output field: ".to_owned();
                error.append(field);
                return Err(error);
            }
            i = i + 1;
        }
        Ok(parts)
    }

    pub open spec fn named_fields(&self) -> Option<Seq<Seq<char>>> {
        match self.fields {
            Some(fields) => Some(fields.deep_view()),
            None => None,
        }
    }

    /// What is wrong with the options, if anything.
    pub open spec fn complaint(&self) -> Option<Seq<char>> {
        if self.format == OutputFormat::Jsonl && self.fields is Some {
            Some("--fields is available only with text output"@)
        } else {
            match self.named_fields() {
                None => None,
                Some(fields) => match fields_of(joined(fields)) {
                    Err(error) => Some(error),
                    Ok(parsed) => if parsed != fields {
                        Some("invalid output fields"@)
                    } else {
                        None
                    },
                },
            }
        }
    }

    pub fn validate(&self) -> (r: Result<(), String>)
        ensures
            match r {
                Ok(_) => self.complaint() is None,
                Err(error) => self.complaint() == Some(error@),
            },
    {
        if self.format == OutputFormat::Jsonl && self.fields.is_some() {
            return Err("--fields is available only with text output".to_owned());
        }
        match &self.fields {
            None => Ok(()),
            Some(fields) => {
                let list: String = join(fields);
                match OutputOptions::parse_fields(list.as_str()) {
                    Err(error) => Err(error),
                    Ok(parsed) => {
                        if equal_lists(&parsed, fields) {
                            Ok(())
                        } else {
                            Err("invalid output fields".to_owned())
                        }
                    },
                }
            },
        }
    }

    /// The columns that are shown.
    pub open spec fn columns(&self) -> Seq<Seq<char>> {
        match self.named_fields() {
            Some(fields) => fields,
            None => names_of(DEFAULT_FIELDS@) + (if self.verbosity >= 1 {
                names_of(DETAILED_FIELDS@)
            } else {
                Seq::empty()
            }) + (if self.verbosity >= 2 {
                names_of(DIAGNOSTIC_FIELDS@)
            } else {
                Seq::empty()
            }),
        }
    }

    pub fn text_fields(&self) -> (r: Vec<String>)
        ensures
            r.deep_view() == self.columns(),
    {
        let mut out: Vec<String> = Vec::new();
        match &self.fields {
            Some(fields) => {
                let mut i: usize = 0;
                while i < fields.len()
                    invariant
                        i <= fields.len(),
                        out.deep_view() =~= fields.deep_view().take(i as int),
                    decreases fields.len() - i,
                {
                    let name: String = fields[i].clone();
                    let ghost before = out.deep_view();
                    out.push(name);
                    assert(out.deep_view() =~= before.push(name@));
                    i = i + 1;
                }
                assert(fields.deep_view().take(fields.len() as int) =~= fields.deep_view());
                out
            },
            None => {
                assert(out.deep_view() + names_of(DEFAULT_FIELDS@) =~= names_of(DEFAULT_FIELDS@));
                copied(&DEFAULT_FIELDS, &mut out);
                if self.verbosity >= 1 {
                    copied(&DETAILED_FIELDS, &mut out);
                }
                if self.verbosity >= 2 {
                    copied(&DIAGNOSTIC_FIELDS, &mut out);
                }
                assert(out.deep_view() =~= self.columns());
                out
            },
        }
    }

    /// How much must be told of each decoded signal.
    pub open spec fn level(&self) -> u8 {
        if self.verbosity >= 2 || self.columns().contains("payload"@) {
            2
        } else if self.verbosity >= 1 || exists|i: int|
            0 <= i < self.columns().len() && listed(
                LEVEL_ONE_FIELDS@,
                #[trigger] self.columns()[i],
            ) {
            1
        } else {
            0
        }
    }

    pub fn diagnostics_level(&self) -> (r: u8)
        ensures
            r == self.level(),
    {
        let fields: Vec<String> = self.text_fields();
        if self.verbosity >= 2 || holds(&fields, fields.len(), "payload") {
            assert(fields.deep_view().take(fields.len() as int) =~= fields.deep_view());
            return 2;
        }
        assert(fields.deep_view().take(fields.len() as int) =~= fields.deep_view());
        if self.verbosity >= 1 {
            return 1;
        }
        let mut i: usize = 0;
        while i < fields.len()
            invariant
                i <= fields.len(),
                fields.deep_view() == self.columns(),
                self.verbosity == 0,
                !self.columns().contains("payload"@),
                forall|k: int|
                    0 <= k < i ==> !listed(LEVEL_ONE_FIELDS@, #[trigger] self.columns()[k]),
            decreases fields.len() - i,
        {
            assert(self.columns()[i as int] == fields@[i as int]@);
            if is_listed(&LEVEL_ONE_FIELDS, fields[i].as_str()) {
                return 1;
            }
            i = i + 1;
        }
        0
    }

    pub fn window_stats_enabled(&self) -> (r: bool)
        ensures
            r == (self.stats || self.verbosity > 0),
    {
        self.stats || self.verbosity > 0
    }
}

fn equal_lists(a: &Vec<String>, b: &Vec<String>) -> (r: bool)
    ensures
        r == (a.deep_view() == b.deep_view()),
{
    if a.len() != b.len() {
        assert(a.deep_view().len() != b.deep_view().len());
        return false;
    }
    let mut i: usize = 0;
    while i < a.len()
        invariant
            i <= a.len(),
            a.len() == b.len(),
            forall|k: int| 0 <= k < i ==> #[trigger] a.deep_view()[k] == b.deep_view()[k],
        decreases a.len() - i,
    {
        assert(a.deep_view()[i as int] == a@[i as int]@);
        assert(b.deep_view()[i as int] == b@[i as int]@);
        if !same(a[i].as_str(), b[i].as_str()) {
            return false;
        }
        i = i + 1;
    }
    assert(a.deep_view() =~= b.deep_view());
    true
}

/// Accepted fields are known and distinct.
pub proof fn accepted_fields_are_known_and_distinct(value: Seq<char>)
    ensures
        fields_of(value) matches Ok(fields) ==> {
            &&& fields.len() > 0
            &&& forall|i: int| 0 <= i < fields.len() ==> listed(ALLOWED_FIELDS@, #[trigger] fields[i])
            &&& fields.no_duplicates()
        },
{
    if let Ok(fields) = fields_of(value) {
        lemma_accepted(fields, 0);
        assert forall|i: int, j: int| 0 <= i < j < fields.len() implies fields[i] != fields[j] by {
            assert(!fields.take(j).contains(fields[j]));
            assert(fields.take(j)[i] == fields[i]);
        }
    }
}

proof fn lemma_accepted(parts: Seq<Seq<char>>, from: int)
    requires
        0 <= from <= parts.len(),
        field_complaint(parts, from) is None,
    ensures
        forall|i: int| from <= i < parts.len() ==> listed(ALLOWED_FIELDS@, #[trigger] parts[i]),
        forall|i: int|
            from <= i < parts.len() ==> !parts.take(i).contains(#[trigger] parts[i]),
    decreases parts.len() - from,
{
    if from < parts.len() {
        lemma_accepted(parts, from + 1);
    }
}

} // verus!
