use vstd::prelude::*;
use crate::text::same;

verus! {

/// Field Day sections, in wire order.
pub const CSEC: [&'static str; 86] = [
    "AB", "AK", "AL", "AR", "AZ", "BC", "CO", "CT", "DE", "EB", "EMA", "ENY", "EPA", "EWA",
    "GA", "GH", "IA", "ID", "IL", "IN", "KS", "KY", "LA", "LAX", "NS", "MB", "MDC", "ME", "MI",
    "MN", "MO", "MS", "MT", "NC", "ND", "NE", "NFL", "NH", "NL", "NLI", "NM", "NNJ", "NNY",
    "TER", "NTX", "NV", "OH", "OK", "ONE", "ONN", "ONS", "OR", "ORG", "PAC", "PR", "QC", "RI",
    "SB", "SC", "SCV", "SD", "SDG", "SF", "SFL", "SJV", "SK", "SNJ", "STX", "SV", "TN", "UT",
    "VA", "VI", "VT", "WCF", "WI", "WMA", "WNY", "WPA", "WTX", "WV", "WWA", "WY", "DX", "PE",
    "NB",
];

/// RTTY contest multipliers, in wire order.
pub const CMULT: [&'static str; 171] = [
    "AL", "AK", "AZ", "AR", "CA", "CO", "CT", "DE", "FL", "GA", "HI", "ID", "IL", "IN", "IA",
    "KS", "KY", "LA", "ME", "MD", "MA", "MI", "MN", "MS", "MO", "MT", "NE", "NV", "NH", "NJ",
    "NM", "NY", "NC", "ND", "OH", "OK", "OR", "PA", "RI", "SC", "SD", "TN", "TX", "UT", "VT",
    "VA", "WA", "WV", "WI", "WY", "NB", "NS", "QC", "ON", "MB", "SK", "AB", "BC", "NWT", "NF",
    "LB", "NU", "YT", "PEI", "DC", "DR", "FR", "GD", "GR", "OV", "ZH", "ZL", "X01", "X02",
    "X03", "X04", "X05", "X06", "X07", "X08", "X09", "X10", "X11", "X12", "X13", "X14", "X15",
    "X16", "X17", "X18", "X19", "X20", "X21", "X22", "X23", "X24", "X25", "X26", "X27", "X28",
    "X29", "X30", "X31", "X32", "X33", "X34", "X35", "X36", "X37", "X38", "X39", "X40", "X41",
    "X42", "X43", "X44", "X45", "X46", "X47", "X48", "X49", "X50", "X51", "X52", "X53", "X54",
    "X55", "X56", "X57", "X58", "X59", "X60", "X61", "X62", "X63", "X64", "X65", "X66", "X67",
    "X68", "X69", "X70", "X71", "X72", "X73", "X74", "X75", "X76", "X77", "X78", "X79", "X80",
    "X81", "X82", "X83", "X84", "X85", "X86", "X87", "X88", "X89", "X90", "X91", "X92", "X93",
    "X94", "X95", "X96", "X97", "X98", "X99",
];

/// Section `i`.
#[verifier::opaque]
pub open spec fn section_name(i: int) -> Seq<char> {
    CSEC@[i]@
}

/// Multiplier `i`.
#[verifier::opaque]
pub open spec fn multiplier_name(i: int) -> Seq<char> {
    CMULT@[i]@
}

/// Place of a word in a table, from `from` on; the length without one.
pub open spec fn table_place(table: Seq<&'static str>, word: Seq<char>, from: int) -> int
    decreases table.len() - from,
{
    if from >= table.len() || table[from]@ == word {
        from
    } else {
        table_place(table, word, from + 1)
    }
}

/// Place of a section, 86 for a word that is none.
#[verifier::opaque]
pub open spec fn section_place(word: Seq<char>) -> int {
    table_place(CSEC@, word, 0)
}

/// Place of a multiplier, 171 for a word that is none.
#[verifier::opaque]
pub open spec fn multiplier_place(word: Seq<char>) -> int {
    table_place(CMULT@, word, 0)
}

proof fn lemma_table(table: Seq<&'static str>, word: Seq<char>, from: int)
    requires
        0 <= from <= table.len(),
    ensures
        from <= table_place(table, word, from) <= table.len(),
        table_place(table, word, from) < table.len() ==> table[table_place(table, word, from)]@
            == word,
    decreases table.len() - from,
{
    if from < table.len() && table[from]@ != word {
        lemma_table(table, word, from + 1);
    }
}

/// A section that was found has the name that was looked for.
pub proof fn found_sections_match(word: Seq<char>)
    ensures
        0 <= section_place(word) <= 86,
        section_place(word) < 86 ==> section_name(section_place(word)) == word,
{
    reveal(section_place);
    reveal(section_name);
    lemma_table(CSEC@, word, 0);
}

/// A multiplier that was found has the name that was looked for.
pub proof fn found_multipliers_match(word: Seq<char>)
    ensures
        0 <= multiplier_place(word) <= 171,
        multiplier_place(word) < 171 ==> multiplier_name(multiplier_place(word)) == word,
{
    reveal(multiplier_place);
    reveal(multiplier_name);
    lemma_table(CMULT@, word, 0);
}

pub fn section(i: usize) -> (r: &'static str)
    requires
        i < 86,
    ensures
        r@ == section_name(i as int),
{
    reveal(section_name);
    CSEC[i]
}

pub fn multiplier(i: usize) -> (r: &'static str)
    requires
        i < 171,
    ensures
        r@ == multiplier_name(i as int),
{
    reveal(multiplier_name);
    CMULT[i]
}

pub fn find_section(word: &str) -> (r: usize)
    ensures
        r == section_place(word@),
        r <= 86,
{
    reveal(section_place);
    let mut i: usize = 0;
    while i < 86 && !same(CSEC[i], word)
        invariant
            i <= 86,
            table_place(CSEC@, word@, 0) == table_place(CSEC@, word@, i as int),
        decreases 86 - i,
    {
        i = i + 1;
    }
    i
}

pub fn find_multiplier(word: &str) -> (r: usize)
    ensures
        r == multiplier_place(word@),
        r <= 171,
{
    reveal(multiplier_place);
    let mut i: usize = 0;
    while i < 171 && !same(CMULT[i], word)
        invariant
            i <= 171,
            table_place(CMULT@, word@, 0) == table_place(CMULT@, word@, i as int),
        decreases 171 - i,
    {
        i = i + 1;
    }
    i
}

} // verus!
