//! Symbol resolver: turns a runtime-emitted text symbol map into a table
//! from short function names to function metadata.
//!
//! Each map line has the shape `<hex address> <hex size> <name>` with
//! whitespace-separated fields. A line whose name does not start with the
//! caller's filter is dropped; the short key is the part of the name after
//! the last `:`; on a short-name collision the last line wins. A malformed
//! hex field or a missing column aborts the whole parse.
use vstd::prelude::*;

use crate::errors::ParseError;
use crate::hex::parse_hex_u64;
use crate::hex::spec_parse_hex_u64;
use crate::hex::spec_strip_hex_prefix;

verus! {

/// Metadata of one dynamically generated function.
#[derive(Debug, Clone)]
pub struct FunctionMetadata {
    /// The full qualified symbol assigned to the function by the runtime.
    pub symbol: String,
    /// Absolute virtual address of the function inside the target.
    pub addr: u64,
    /// Byte length of the generated code.
    pub size: u64,
}

/// Mathematical image of one metadata record.
#[verifier::ext_equal]
pub struct FunctionMetadataView {
    pub symbol: Seq<char>,
    pub addr: u64,
    pub size: u64,
}

impl View for FunctionMetadata {
    type V = FunctionMetadataView;

    open spec fn view(&self) -> FunctionMetadataView {
        FunctionMetadataView { symbol: self.symbol@, addr: self.addr, size: self.size }
    }
}

/// Horizontal whitespace separating the fields of a map line.
pub open spec fn is_space(c: char) -> bool {
    c == ' ' || c == '\t' || c == '\r'
}

/// First index at or after `i` holding a non-space character, or the end.
pub open spec fn spec_skip_spaces(s: Seq<char>, i: int) -> int
    decreases s.len() - i,
{
    if i >= s.len() || !is_space(s[i]) {
        i
    } else {
        spec_skip_spaces(s, i + 1)
    }
}

/// First index at or after `i` holding a space, or the end.
pub open spec fn spec_token_end(s: Seq<char>, i: int) -> int
    decreases s.len() - i,
{
    if i >= s.len() || is_space(s[i]) {
        i
    } else {
        spec_token_end(s, i + 1)
    }
}

/// Whether `p` is a prefix of `s`.
pub open spec fn spec_starts_with(s: Seq<char>, p: Seq<char>) -> bool {
    p.len() <= s.len() && s.subrange(0, p.len() as int) == p
}

/// Start of the short name: the index just past the last `:`, or 0.
pub open spec fn spec_after_last_colon(s: Seq<char>) -> int
    decreases s.len(),
{
    if s.len() == 0 {
        0
    } else if s.last() == ':' {
        s.len() as int
    } else {
        spec_after_last_colon(s.drop_last())
    }
}

/// The short key of a symbol name: what follows its last `:`, or the
/// whole name if it holds none.
pub open spec fn spec_short_name(s: Seq<char>) -> Seq<char> {
    s.subrange(spec_after_last_colon(s), s.len() as int)
}

/// The shape of one map line: blank, missing a column, or three fields.
pub enum LineShape {
    Blank,
    Missing,
    Fields(Seq<char>, Seq<char>, Seq<char>),
}

/// Splits a line into its first three whitespace-separated fields.
pub open spec fn spec_line_shape(line: Seq<char>) -> LineShape {
    let a0 = spec_skip_spaces(line, 0);
    if a0 >= line.len() {
        LineShape::Blank
    } else {
        let a1 = spec_token_end(line, a0);
        let b0 = spec_skip_spaces(line, a1);
        if b0 >= line.len() {
            LineShape::Missing
        } else {
            let b1 = spec_token_end(line, b0);
            let c0 = spec_skip_spaces(line, b1);
            if c0 >= line.len() {
                LineShape::Missing
            } else {
                let c1 = spec_token_end(line, c0);
                LineShape::Fields(
                    line.subrange(a0, a1),
                    line.subrange(b0, b1),
                    line.subrange(c0, c1),
                )
            }
        }
    }
}

/// What one map line contributes: an abort, nothing, or one table entry.
pub enum LineOutcome {
    Bad(ParseError),
    Pass,
    Add(Seq<char>, FunctionMetadataView),
}

/// The contribution of one line under a name filter: blank lines pass,
/// too few columns abort, filtered names pass, malformed hex aborts, and
/// a well-formed retained line adds the entry for its short name.
pub open spec fn spec_line_outcome(line: Seq<char>, filter: Seq<char>) -> LineOutcome {
    match spec_line_shape(line) {
        LineShape::Blank => LineOutcome::Pass,
        LineShape::Missing => LineOutcome::Bad(ParseError::MissingColumn),
        LineShape::Fields(addr_f, size_f, name_f) => {
            if !spec_starts_with(name_f, filter) {
                LineOutcome::Pass
            } else {
                match (
                    spec_parse_hex_u64(spec_strip_hex_prefix(addr_f)),
                    spec_parse_hex_u64(size_f),
                ) {
                    (Some(av), Some(sv)) => LineOutcome::Add(
                        spec_short_name(name_f),
                        FunctionMetadataView { symbol: name_f, addr: av, size: sv },
                    ),
                    _ => LineOutcome::Bad(ParseError::MalformedHex),
                }
            }
        },
    }
}

/// Folds the characters of the file into completed lines plus the
/// trailing partial line, splitting at `\n`.
pub open spec fn spec_lines_fold(s: Seq<char>) -> (Seq<Seq<char>>, Seq<char>)
    decreases s.len(),
{
    if s.len() == 0 {
        (Seq::empty(), Seq::empty())
    } else {
        let (ls, cur) = spec_lines_fold(s.drop_last());
        if s.last() == '\n' {
            (ls.push(cur), Seq::empty())
        } else {
            (ls, cur.push(s.last()))
        }
    }
}

/// The lines of the file; a final line needs no terminating `\n`.
pub open spec fn spec_lines(s: Seq<char>) -> Seq<Seq<char>> {
    let (ls, cur) = spec_lines_fold(s);
    if cur.len() == 0 {
        ls
    } else {
        ls.push(cur)
    }
}

/// One parsed entry: a short name and the metadata it resolves to.
pub type EntryPair = (Seq<char>, FunctionMetadataView);

/// The entries contributed by the lines, in file order, or the error of
/// the first aborting line.
pub open spec fn spec_entries_of_lines(lines: Seq<Seq<char>>, filter: Seq<char>) -> Result<
    Seq<EntryPair>,
    ParseError,
>
    decreases lines.len(),
{
    if lines.len() == 0 {
        Ok(Seq::empty())
    } else {
        match spec_line_outcome(lines[0], filter) {
            LineOutcome::Bad(e) => Err(e),
            LineOutcome::Pass => spec_entries_of_lines(lines.drop_first(), filter),
            LineOutcome::Add(k, m) => match spec_entries_of_lines(lines.drop_first(), filter) {
                Ok(rest) => Ok(seq![(k, m)] + rest),
                Err(e) => Err(e),
            },
        }
    }
}

/// The full parse of a symbol-map file under a name filter.
pub open spec fn spec_parse(s: Seq<char>, filter: Seq<char>) -> Result<
    Seq<(Seq<char>, FunctionMetadataView)>,
    ParseError,
> {
    spec_entries_of_lines(spec_lines(s), filter)
}

/// The table that a sequence of entries denotes: later entries win.
pub open spec fn map_of(es: Seq<(Seq<char>, FunctionMetadataView)>) -> Map<
    Seq<char>,
    FunctionMetadataView,
>
    decreases es.len(),
{
    if es.len() == 0 {
        Map::empty()
    } else {
        map_of(es.drop_last()).insert(es.last().0, es.last().1)
    }
}

/// No two entries share a key.
pub open spec fn unique_keys(es: Seq<(Seq<char>, FunctionMetadataView)>) -> bool {
    forall|i: int, j: int| 0 <= i < j < es.len() ==> es[i].0 != es[j].0
}

/// A key absent from every entry is absent from the table.
pub proof fn lemma_map_of_absent(es: Seq<(Seq<char>, FunctionMetadataView)>, k: Seq<char>)
    requires
        forall|i: int| 0 <= i < es.len() ==> es[i].0 != k,
    ensures
        !map_of(es).contains_key(k),
    decreases es.len(),
{
    if es.len() > 0 {
        lemma_map_of_absent(es.drop_last(), k);
    }
}

/// The table maps each key to the metadata of its last entry: the law
/// that the last occurrence of a short name in the file wins, and that a
/// lookup after a parse returns exactly what that line held.
pub proof fn lemma_last_entry_wins(es: Seq<(Seq<char>, FunctionMetadataView)>, j: int)
    requires
        0 <= j < es.len(),
        forall|l: int| j < l < es.len() ==> es[l].0 != es[j].0,
    ensures
        map_of(es).contains_key(es[j].0),
        map_of(es)[es[j].0] == es[j].1,
    decreases es.len(),
{
    if j == es.len() - 1 {
    } else {
        lemma_last_entry_wins(es.drop_last(), j);
    }
}

/// Every key of the table comes from an entry of the list.
pub proof fn lemma_map_of_covered(es: Seq<(Seq<char>, FunctionMetadataView)>, k: Seq<char>)
    requires
        map_of(es).contains_key(k),
    ensures
        exists|i: int| 0 <= i < es.len() && es[i].0 == k,
    decreases es.len(),
{
    if es.len() > 0 {
        if es.last().0 != k {
            lemma_map_of_covered(es.drop_last(), k);
            let i = choose|i: int| 0 <= i < es.drop_last().len() && es.drop_last()[i].0 == k;
            assert(es[i].0 == k);
        } else {
            assert(es[es.len() - 1].0 == k);
        }
    }
}

/// Every entry a parse produces names a symbol that starts with the
/// filter, so a filtered-out name never appears in the table.
pub proof fn lemma_filter_respected(lines: Seq<Seq<char>>, filter: Seq<char>)
    requires
        spec_entries_of_lines(lines, filter) is Ok,
    ensures
        forall|i: int|
            0 <= i < spec_entries_of_lines(lines, filter)->Ok_0.len() ==> spec_starts_with(
                #[trigger] spec_entries_of_lines(lines, filter)->Ok_0[i].1.symbol,
                filter,
            ),
    decreases lines.len(),
{
    if lines.len() > 0 {
        match spec_line_outcome(lines[0], filter) {
            LineOutcome::Bad(e) => {
                assert(false);
            },
            _ => {
                lemma_filter_respected(lines.drop_first(), filter);
            },
        }
        let es = spec_entries_of_lines(lines, filter)->Ok_0;
        let rest = spec_entries_of_lines(lines.drop_first(), filter)->Ok_0;
        assert forall|i: int| 0 <= i < es.len() implies spec_starts_with(
            #[trigger] es[i].1.symbol,
            filter,
        ) by {
            match spec_line_outcome(lines[0], filter) {
                LineOutcome::Bad(e) => {
                    assert(false);
                },
                LineOutcome::Pass => {
                    assert(es[i] == rest[i]);
                    assert(spec_starts_with(rest[i].1.symbol, filter));
                },
                LineOutcome::Add(k, m) => {
                    assert(es == seq![(k, m)] + rest);
                    if i == 0 {
                        assert(es[0] == (k, m));
                        assert(spec_starts_with(m.symbol, filter));
                    } else {
                        assert(es[i] == rest[i - 1]);
                        assert(spec_starts_with(rest[i - 1].1.symbol, filter));
                    }
                },
            }
        }
    }
}

/// Appending one line either keeps the abort of an earlier line, aborts
/// on the new line, or appends the new line's entry.
pub proof fn lemma_entries_snoc(lines: Seq<Seq<char>>, l: Seq<char>, filter: Seq<char>)
    ensures
        spec_entries_of_lines(lines.push(l), filter) == (match spec_entries_of_lines(
            lines,
            filter,
        ) {
            Err(e) => Err::<Seq<EntryPair>, ParseError>(e),
            Ok(es) => match spec_line_outcome(l, filter) {
                LineOutcome::Bad(e) => Err::<Seq<EntryPair>, ParseError>(e),
                LineOutcome::Pass => Ok::<Seq<EntryPair>, ParseError>(es),
                LineOutcome::Add(k, m) => Ok::<Seq<EntryPair>, ParseError>(es.push((k, m))),
            },
        }),
    decreases lines.len(),
{
    if lines.len() == 0 {
        assert(lines.push(l)[0] == l);
        assert(lines.push(l).drop_first() =~= lines);
        assert(spec_entries_of_lines(lines, filter) == Ok::<Seq<EntryPair>, ParseError>(
            Seq::empty(),
        ));
        match spec_line_outcome(l, filter) {
            LineOutcome::Bad(e) => {
                assert(spec_entries_of_lines(lines.push(l), filter) == Err::<
                    Seq<EntryPair>,
                    ParseError,
                >(e));
            },
            LineOutcome::Pass => {
                assert(spec_entries_of_lines(lines.push(l), filter) == Ok::<
                    Seq<EntryPair>,
                    ParseError,
                >(Seq::empty()));
            },
            LineOutcome::Add(k, m) => {
                assert(seq![(k, m)] + Seq::<EntryPair>::empty() =~= Seq::<EntryPair>::empty().push(
                    (k, m),
                ));
                assert(spec_entries_of_lines(lines.push(l), filter) == Ok::<
                    Seq<EntryPair>,
                    ParseError,
                >(Seq::<EntryPair>::empty().push((k, m))));
            },
        }
    } else {
        assert(lines.push(l)[0] == lines[0]);
        assert(lines.push(l).drop_first() =~= lines.drop_first().push(l));
        lemma_entries_snoc(lines.drop_first(), l, filter);
        match spec_line_outcome(lines[0], filter) {
            LineOutcome::Bad(e0) => {
                assert(spec_entries_of_lines(lines, filter) == Err::<Seq<EntryPair>, ParseError>(
                    e0,
                ));
                assert(spec_entries_of_lines(lines.push(l), filter) == Err::<
                    Seq<EntryPair>,
                    ParseError,
                >(e0));
            },
            LineOutcome::Pass => {
                assert(spec_entries_of_lines(lines.push(l), filter) == spec_entries_of_lines(
                    lines.drop_first().push(l),
                    filter,
                ));
                assert(spec_entries_of_lines(lines, filter) == spec_entries_of_lines(
                    lines.drop_first(),
                    filter,
                ));
            },
            LineOutcome::Add(k0, m0) => {
                match spec_entries_of_lines(lines.drop_first(), filter) {
                    Err(e) => {
                        assert(spec_entries_of_lines(lines, filter) == Err::<
                            Seq<EntryPair>,
                            ParseError,
                        >(e));
                        assert(spec_entries_of_lines(lines.drop_first().push(l), filter) == Err::<
                            Seq<EntryPair>,
                            ParseError,
                        >(e));
                        assert(spec_entries_of_lines(lines.push(l), filter) == Err::<
                            Seq<EntryPair>,
                            ParseError,
                        >(e));
                    },
                    Ok(rest) => {
                        assert(spec_entries_of_lines(lines, filter) == Ok::<
                            Seq<EntryPair>,
                            ParseError,
                        >(seq![(k0, m0)] + rest));
                        match spec_line_outcome(l, filter) {
                            LineOutcome::Bad(e) => {
                                assert(spec_entries_of_lines(lines.drop_first().push(l), filter)
                                    == Err::<Seq<EntryPair>, ParseError>(e));
                                assert(spec_entries_of_lines(lines.push(l), filter) == Err::<
                                    Seq<EntryPair>,
                                    ParseError,
                                >(e));
                            },
                            LineOutcome::Pass => {
                                assert(spec_entries_of_lines(lines.drop_first().push(l), filter)
                                    == Ok::<Seq<EntryPair>, ParseError>(rest));
                                assert(spec_entries_of_lines(lines.push(l), filter) == Ok::<
                                    Seq<EntryPair>,
                                    ParseError,
                                >(seq![(k0, m0)] + rest));
                            },
                            LineOutcome::Add(k, m) => {
                                assert(spec_entries_of_lines(lines.drop_first().push(l), filter)
                                    == Ok::<Seq<EntryPair>, ParseError>(rest.push((k, m))));
                                assert(seq![(k0, m0)] + rest.push((k, m)) =~= (seq![(k0, m0)]
                                    + rest).push((k, m)));
                                assert(spec_entries_of_lines(lines.push(l), filter) == Ok::<
                                    Seq<EntryPair>,
                                    ParseError,
                                >((seq![(k0, m0)] + rest).push((k, m))));
                            },
                        }
                    },
                }
            },
        }
    }
}

/// A name that appears as a key of a parsed table is the short name of a
/// retained symbol that starts with the filter.
pub proof fn lemma_filtered_names_absent(lines: Seq<Seq<char>>, filter: Seq<char>, k: Seq<char>)
    requires
        spec_entries_of_lines(lines, filter) is Ok,
        map_of(spec_entries_of_lines(lines, filter)->Ok_0).contains_key(k),
    ensures
        exists|i: int|
            0 <= i < spec_entries_of_lines(lines, filter)->Ok_0.len()
                && #[trigger] spec_entries_of_lines(lines, filter)->Ok_0[i].0 == k
                && spec_starts_with(spec_entries_of_lines(lines, filter)->Ok_0[i].1.symbol, filter),
{
    let es = spec_entries_of_lines(lines, filter)->Ok_0;
    lemma_map_of_covered(es, k);
    lemma_filter_respected(lines, filter);
    let i = choose|i: int| 0 <= i < es.len() && es[i].0 == k;
    assert(spec_starts_with(es[i].1.symbol, filter));
}

/// Overwriting the one entry that holds a key updates the table at that
/// key alone.
pub proof fn lemma_map_of_update(
    es: Seq<(Seq<char>, FunctionMetadataView)>,
    j: int,
    m: FunctionMetadataView,
)
    requires
        0 <= j < es.len(),
        unique_keys(es),
    ensures
        map_of(es.update(j, (es[j].0, m))) == map_of(es).insert(es[j].0, m),
    decreases es.len(),
{
    let k = es[j].0;
    let upd = es.update(j, (k, m));
    if j == es.len() - 1 {
        assert(upd.drop_last() =~= es.drop_last());
        assert(map_of(es.drop_last()).insert(k, m) =~= map_of(es.drop_last()).insert(
            k,
            es[j].1,
        ).insert(k, m));
    } else {
        assert(upd.drop_last() =~= es.drop_last().update(j, (k, m)));
        lemma_map_of_update(es.drop_last(), j, m);
        assert(es.drop_last()[j] == es[j]);
        assert(es.last().0 != k);
        assert(map_of(es.drop_last()).insert(k, m).insert(es.last().0, es.last().1) =~= map_of(
            es.drop_last(),
        ).insert(es.last().0, es.last().1).insert(k, m));
    }
}

/// Character-wise equality of two strings.
fn str_eq(a: &str, b: &str) -> (r: bool)
    ensures
        r == (a@ == b@),
{
    let alen: usize = a.unicode_len();
    let blen: usize = b.unicode_len();
    if alen != blen {
        return false;
    }
    let mut i: usize = 0;
    loop
        invariant
            alen == a@.len(),
            blen == b@.len(),
            alen == blen,
            0 <= i <= alen,
            forall|j: int| 0 <= j < i ==> a@[j] == b@[j],
        decreases alen - i,
    {
        if i == alen {
            proof {
                assert(a@ =~= b@);
            }
            return true;
        }
        if a.get_char(i) != b.get_char(i) {
            return false;
        }
        i = i + 1;
    }
}

fn space_char(c: char) -> (r: bool)
    ensures
        r == is_space(c),
{
    c == ' ' || c == '\t' || c == '\r'
}

/// First non-space position of `s` at or after `from`.
fn skip_spaces(s: &str, from: usize, len: usize) -> (r: usize)
    requires
        len == s@.len(),
        from <= len,
    ensures
        from <= r <= len,
        r as int == spec_skip_spaces(s@, from as int),
{
    let mut i: usize = from;
    loop
        invariant
            len == s@.len(),
            from <= i <= len,
            spec_skip_spaces(s@, from as int) == spec_skip_spaces(s@, i as int),
        decreases len - i,
    {
        if i == len {
            return i;
        }
        if !space_char(s.get_char(i)) {
            return i;
        }
        i = i + 1;
    }
}

/// First space position of `s` at or after `from`, or the end.
fn token_end(s: &str, from: usize, len: usize) -> (r: usize)
    requires
        len == s@.len(),
        from <= len,
    ensures
        from <= r <= len,
        r as int == spec_token_end(s@, from as int),
{
    let mut i: usize = from;
    loop
        invariant
            len == s@.len(),
            from <= i <= len,
            spec_token_end(s@, from as int) == spec_token_end(s@, i as int),
        decreases len - i,
    {
        if i == len {
            return i;
        }
        if space_char(s.get_char(i)) {
            return i;
        }
        i = i + 1;
    }
}

/// Whether `p` is a prefix of `s`.
fn str_starts_with(s: &str, slen: usize, p: &str, plen: usize) -> (r: bool)
    requires
        slen == s@.len(),
        plen == p@.len(),
    ensures
        r == spec_starts_with(s@, p@),
{
    if plen > slen {
        return false;
    }
    let mut i: usize = 0;
    loop
        invariant
            slen == s@.len(),
            plen == p@.len(),
            plen <= slen,
            0 <= i <= plen,
            forall|j: int| 0 <= j < i ==> s@[j] == p@[j],
        decreases plen - i,
    {
        if i == plen {
            proof {
                assert(s@.subrange(0, plen as int) =~= p@);
            }
            return true;
        }
        if s.get_char(i) != p.get_char(i) {
            proof {
                assert(s@.subrange(0, plen as int)[i as int] == s@[i as int]);
            }
            return false;
        }
        i = i + 1;
    }
}

/// Index just past the last `:` of `s`, or 0 if it holds none.
fn short_name_start(s: &str, len: usize) -> (r: usize)
    requires
        len == s@.len(),
    ensures
        r <= len,
        r as int == spec_after_last_colon(s@),
{
    proof {
        assert(s@.subrange(0, len as int) =~= s@);
    }
    let mut j: usize = len;
    loop
        invariant
            len == s@.len(),
            0 <= j <= len,
            spec_after_last_colon(s@) == spec_after_last_colon(s@.subrange(0, j as int)),
        decreases j,
    {
        if j == 0 {
            proof {
                assert(s@.subrange(0, 0) =~= Seq::<char>::empty());
            }
            return 0;
        }
        proof {
            assert(s@.subrange(0, j as int).last() == s@[j - 1]);
            assert(s@.subrange(0, j as int).drop_last() =~= s@.subrange(0, j as int - 1));
        }
        if s.get_char(j - 1) == ':' {
            return j;
        }
        j = j - 1;
    }
}

/// Start of a hex address field once its leading `0x` markers are gone.
fn hex_field_start(s: &str, len: usize) -> (r: usize)
    requires
        len == s@.len(),
    ensures
        r <= len,
        spec_strip_hex_prefix(s@) == s@.subrange(r as int, len as int),
{
    proof {
        assert(s@.subrange(0, len as int) =~= s@);
    }
    let mut i: usize = 0;
    loop
        invariant
            len == s@.len(),
            0 <= i <= len,
            spec_strip_hex_prefix(s@) == spec_strip_hex_prefix(s@.subrange(i as int, len as int)),
        decreases len - i,
    {
        if len - i >= 2 {
            let c0 = s.get_char(i);
            let c1 = s.get_char(i + 1);
            proof {
                let sub = s@.subrange(i as int, len as int);
                assert(sub[0] == s@[i as int]);
                assert(sub[1] == s@[i as int + 1]);
                assert(sub.skip(2) =~= s@.subrange(i as int + 2, len as int));
            }
            if c0 == '0' && c1 == 'x' {
                i = i + 2;
                continue;
            }
            return i;
        }
        proof {
            let sub = s@.subrange(i as int, len as int);
            assert(sub.len() < 2);
        }
        return i;
    }
}

/// What the parser does with one line.
enum LineAction {
    Abort(ParseError),
    SkipLine,
    Keep(String, FunctionMetadata),
}

/// Parses one line of the map under the name filter.
fn line_action(line: &str, filter: &str) -> (r: LineAction)
    ensures
        ({
            let o = spec_line_outcome(line@, filter@);
            match r {
                LineAction::Abort(e) => o == LineOutcome::Bad(e),
                LineAction::SkipLine => o == LineOutcome::Pass,
                LineAction::Keep(k, m) => o == LineOutcome::Add(k@, m@),
            }
        }),
{
    let len: usize = line.unicode_len();
    let a0 = skip_spaces(line, 0, len);
    if a0 == len {
        return LineAction::SkipLine;
    }
    let a1 = token_end(line, a0, len);
    let b0 = skip_spaces(line, a1, len);
    if b0 == len {
        return LineAction::Abort(ParseError::MissingColumn);
    }
    let b1 = token_end(line, b0, len);
    let c0 = skip_spaces(line, b1, len);
    if c0 == len {
        return LineAction::Abort(ParseError::MissingColumn);
    }
    let c1 = token_end(line, c0, len);
    let name_tok = line.substring_char(c0, c1);
    let flen: usize = filter.unicode_len();
    if !str_starts_with(name_tok, c1 - c0, filter, flen) {
        return LineAction::SkipLine;
    }
    let addr_tok = line.substring_char(a0, a1);
    let h = hex_field_start(addr_tok, a1 - a0);
    let addr_body = addr_tok.substring_char(h, a1 - a0);
    let size_tok = line.substring_char(b0, b1);
    let addr_val = parse_hex_u64(addr_body);
    let size_val = parse_hex_u64(size_tok);
    match (addr_val, size_val) {
        (Some(av), Some(sv)) => {
            let ss = short_name_start(name_tok, c1 - c0);
            let short_tok = name_tok.substring_char(ss, c1 - c0);
            LineAction::Keep(
                String::from_str(short_tok),
                FunctionMetadata { symbol: String::from_str(name_tok), addr: av, size: sv },
            )
        },
        _ => LineAction::Abort(ParseError::MalformedHex),
    }
}

/// Appending one entry updates the table at its key.
pub proof fn lemma_map_of_push(es: Seq<EntryPair>, p: EntryPair)
    ensures
        map_of(es.push(p)) == map_of(es).insert(p.0, p.1),
{
    assert(es.push(p).drop_last() =~= es);
    assert(es.push(p).last() == p);
}

/// A table from short function names to metadata, as parsed from one
/// symbol-map file.
#[derive(Debug)]
pub struct FunctionMapping {
    entries: Vec<(String, FunctionMetadata)>,
}

/// The views of stored entries, in storage order.
pub open spec fn entries_view(es: Seq<(String, FunctionMetadata)>) -> Seq<EntryPair> {
    es.map_values(|p: (String, FunctionMetadata)| (p.0@, p.1@))
}

impl View for FunctionMapping {
    type V = Map<Seq<char>, FunctionMetadataView>;

    closed spec fn view(&self) -> Map<Seq<char>, FunctionMetadataView> {
        map_of(entries_view(self.entries@))
    }
}

impl FunctionMapping {
    /// The stored entries, one per short name, in first-insertion order.
    pub closed spec fn entries_seq(&self) -> Seq<EntryPair> {
        entries_view(self.entries@)
    }

    /// Each short name is stored at most once.
    pub closed spec fn wf(&self) -> bool {
        unique_keys(self.entries_seq())
    }

    fn new() -> (r: FunctionMapping)
        ensures
            r.wf(),
            r@ == Map::<Seq<char>, FunctionMetadataView>::empty(),
            r.entries_seq() == Seq::<EntryPair>::empty(),
    {
        let r = FunctionMapping { entries: Vec::new() };
        proof {
            assert(entries_view(r.entries@) =~= Seq::<EntryPair>::empty());
        }
        r
    }

    /// Index of the entry holding `name`, if any.
    fn find_key(&self, name: &str) -> (r: Option<usize>)
        ensures
            match r {
                Some(i) => i < self.entries_seq().len() && self.entries_seq()[i as int].0 == name@,
                None => forall|j: int|
                    0 <= j < self.entries_seq().len() ==> self.entries_seq()[j].0 != name@,
            },
    {
        let n = self.entries.len();
        let mut i: usize = 0;
        loop
            invariant
                i <= n,
                n == self.entries@.len(),
                forall|j: int| 0 <= j < i ==> entries_view(self.entries@)[j].0 != name@,
            decreases n - i,
        {
            if i == n {
                return None;
            }
            proof {
                assert(entries_view(self.entries@)[i as int] == (
                    self.entries@[i as int].0@,
                    self.entries@[i as int].1@,
                ));
            }
            if str_eq(self.entries[i].0.as_str(), name) {
                return Some(i);
            }
            i = i + 1;
        }
    }

    /// Looks a short name up; absence is an expected, non-error outcome.
    pub fn get_function(&self, name: &str) -> (r: Option<&FunctionMetadata>)
        requires
            self.wf(),
        ensures
            match r {
                Some(meta) => self@.contains_key(name@) && meta@ == self@[name@],
                None => !self@.contains_key(name@),
            },
    {
        match self.find_key(name) {
            None => {
                proof {
                    lemma_map_of_absent(self.entries_seq(), name@);
                }
                None
            },
            Some(i) => {
                proof {
                    lemma_last_entry_wins(self.entries_seq(), i as int);
                }
                Some(&self.entries[i].1)
            },
        }
    }

    /// Number of resolved functions.
    pub fn len(&self) -> (r: usize)
        ensures
            r == self.entries_seq().len(),
    {
        self.entries.len()
    }

    /// The entry at one position of the table, for listing.
    pub fn entry_at(&self, i: usize) -> (r: (&String, &FunctionMetadata))
        requires
            self.wf(),
            i < self.entries_seq().len(),
        ensures
            (r.0@, r.1@) == self.entries_seq()[i as int],
            self@.contains_key(r.0@),
            self@[r.0@] == r.1@,
    {
        proof {
            lemma_last_entry_wins(self.entries_seq(), i as int);
        }
        (&self.entries[i].0, &self.entries[i].1)
    }

    /// Adds one resolved function, overwriting the entry of its short
    /// name if one exists: the last occurrence wins.
    fn insert_entry(&mut self, key: String, meta: FunctionMetadata)
        requires
            old(self).wf(),
        ensures
            final(self).wf(),
            final(self)@ == old(self)@.insert(key@, meta@),
    {
        let ghost kview = key@;
        let ghost mview = meta@;
        let ghost old_es = self.entries@;
        match self.find_key(key.as_str()) {
            Some(i) => {
                proof {
                    lemma_map_of_update(entries_view(old_es), i as int, mview);
                }
                self.entries.remove(i);
                self.entries.insert(i, (key, meta));
                proof {
                    assert(entries_view(self.entries@) =~= entries_view(old_es).update(
                        i as int,
                        (kview, mview),
                    ));
                    assert(entries_view(old_es).update(i as int, (kview, mview))
                        == entries_view(old_es).update(
                        i as int,
                        (entries_view(old_es)[i as int].0, mview),
                    ));
                    assert forall|a: int, b: int|
                        0 <= a < b < self.entries_seq().len() implies self.entries_seq()[a].0
                        != self.entries_seq()[b].0 by {
                        assert(self.entries_seq()[a].0 == entries_view(old_es)[a].0);
                        assert(self.entries_seq()[b].0 == entries_view(old_es)[b].0);
                    }
                }
            },
            None => {
                self.entries.push((key, meta));
                proof {
                    assert(entries_view(self.entries@) =~= entries_view(old_es).push(
                        (kview, mview),
                    ));
                    lemma_map_of_push(entries_view(old_es), (kview, mview));
                    assert forall|a: int, b: int|
                        0 <= a < b < self.entries_seq().len() implies self.entries_seq()[a].0
                        != self.entries_seq()[b].0 by {
                        if b < entries_view(old_es).len() {
                            assert(self.entries_seq()[a].0 == entries_view(old_es)[a].0);
                            assert(self.entries_seq()[b].0 == entries_view(old_es)[b].0);
                        } else {
                            assert(self.entries_seq()[a].0 == entries_view(old_es)[a].0);
                            assert(self.entries_seq()[b].0 == kview);
                        }
                    }
                }
            },
        }
    }

    /// Parses the text of a symbol map under a name filter: all lines or
    /// nothing. On success the table holds, for each short name of a
    /// retained line, the metadata of the last line that produced it.
    pub fn parse(content: &str, name_filter: &str) -> (r: Result<FunctionMapping, ParseError>)
        ensures
            match r {
                Ok(m) => {
                    &&& m.wf()
                    &&& spec_parse(content@, name_filter@) is Ok
                    &&& m@ == map_of(spec_parse(content@, name_filter@)->Ok_0)
                },
                Err(e) => spec_parse(content@, name_filter@) == Err::<Seq<EntryPair>, ParseError>(
                    e,
                ),
            },
    {
        let clen: usize = content.unicode_len();
        let mut mapping = FunctionMapping::new();
        let mut failure: Option<ParseError> = None;
        let mut i: usize = 0;
        let mut line_start: usize = 0;
        let ghost mut done: Seq<Seq<char>> = Seq::empty();
        proof {
            assert(content@.subrange(0, 0) =~= Seq::<char>::empty());
        }
        while i < clen
            invariant
                clen == content@.len(),
                line_start <= i <= clen,
                spec_lines_fold(content@.subrange(0, i as int)).0 == done,
                spec_lines_fold(content@.subrange(0, i as int)).1 == content@.subrange(
                    line_start as int,
                    i as int,
                ),
                mapping.wf(),
                match failure {
                    None => spec_entries_of_lines(done, name_filter@) is Ok && mapping@ == map_of(
                        spec_entries_of_lines(done, name_filter@)->Ok_0,
                    ),
                    Some(e) => spec_entries_of_lines(done, name_filter@) == Err::<
                        Seq<EntryPair>,
                        ParseError,
                    >(e),
                },
            decreases clen - i,
        {
            let c = content.get_char(i);
            proof {
                assert(content@.subrange(0, i as int + 1).drop_last() =~= content@.subrange(
                    0,
                    i as int,
                ));
                assert(content@.subrange(0, i as int + 1).last() == content@[i as int]);
            }
            if c == '\n' {
                let line = content.substring_char(line_start, i);
                if failure.is_none() {
                    match line_action(line, name_filter) {
                        LineAction::Abort(e) => {
                            failure = Some(e);
                        },
                        LineAction::SkipLine => {},
                        LineAction::Keep(k, m) => {
                            proof {
                                lemma_map_of_push(
                                    spec_entries_of_lines(done, name_filter@)->Ok_0,
                                    (k@, m@),
                                );
                            }
                            mapping.insert_entry(k, m);
                        },
                    }
                }
                proof {
                    lemma_entries_snoc(done, line@, name_filter@);
                    done = done.push(line@);
                    assert(content@.subrange(i as int + 1, i as int + 1)
                        =~= Seq::<char>::empty());
                }
                line_start = i + 1;
            } else {
                proof {
                    assert(content@.subrange(line_start as int, i as int + 1) =~= content@.subrange(
                        line_start as int,
                        i as int,
                    ).push(content@[i as int]));
                }
            }
            i = i + 1;
        }
        proof {
            assert(content@.subrange(0, clen as int) =~= content@);
        }
        if line_start < clen {
            let line = content.substring_char(line_start, clen);
            if failure.is_none() {
                match line_action(line, name_filter) {
                    LineAction::Abort(e) => {
                        failure = Some(e);
                    },
                    LineAction::SkipLine => {},
                    LineAction::Keep(k, m) => {
                        proof {
                            lemma_map_of_push(
                                spec_entries_of_lines(done, name_filter@)->Ok_0,
                                (k@, m@),
                            );
                        }
                        mapping.insert_entry(k, m);
                    },
                }
            }
            proof {
                lemma_entries_snoc(done, line@, name_filter@);
                done = done.push(line@);
                assert(spec_lines(content@) == done);
            }
        } else {
            proof {
                assert(content@.subrange(line_start as int, clen as int)
                    =~= Seq::<char>::empty());
                assert(spec_lines(content@) == done);
            }
        }
        match failure {
            None => Ok(mapping),
            Some(e) => Err(e),
        }
    }
}

} // verus!
