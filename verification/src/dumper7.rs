//! The Dumper-7 parser: which header files of a dump are read, the module
//! each belongs to, and the graph parsed from their sources.
use vstd::prelude::*;
use vstd::string::StringSliceAdditionalSpecFns;
use vstd::utf8::encode_utf8;
use crate::clock::now_rfc3339;
use crate::lexer::{lex, lexemes, newline_count, newlines_from, tokenize, Token};
use crate::model::{ParseError, SourceMeta, Symbol, SymbolGraph, SymbolKind};
use crate::parser::builder::{graph_ok, of_type_upto, resolution_of, GraphBuilder};
use crate::parser::decls::{module_parsed, parse_module, reached};
use crate::reporter::{ReportEvent, Reporter};
use crate::text::{concat, decimal, str_eq, u64_decimal};

verus! {

pub const PARSER_NAME: &'static str = "dumper7-ue";

pub const PARSER_VERSION: &'static str = "0.1.0";

/// The Dumper-7 SDK parser.
pub struct Dumper7Parser;

impl Dumper7Parser {
    pub fn new() -> (r: Dumper7Parser) {
        Dumper7Parser
    }

    pub fn name(&self) -> (r: &'static str)
        ensures
            r@ == PARSER_NAME@,
    {
        PARSER_NAME
    }

    pub fn version(&self) -> (r: &'static str)
        ensures
            r@ == PARSER_VERSION@,
    {
        PARSER_VERSION
    }
}

/// `s` without the suffix `suf`, if it ends with it.
pub open spec fn strip_suffix_chars(s: Seq<char>, suf: Seq<char>) -> Option<Seq<char>> {
    if s.len() >= suf.len() && s.subrange(s.len() - suf.len(), s.len() as int) == suf {
        Some(s.subrange(0, s.len() - suf.len()))
    } else {
        None
    }
}

fn strip_suffix<'a>(s: &'a str, suf: &str) -> (r: Option<&'a str>)
    ensures
        match r {
            Some(p) => strip_suffix_chars(s@, suf@) == Some(p@),
            None => strip_suffix_chars(s@, suf@) is None,
        },
{
    let n = s.unicode_len();
    let k = suf.unicode_len();
    if n < k {
        return None;
    }
    let tail = s.substring_char(n - k, n);
    if str_eq(tail, suf) {
        Some(s.substring_char(0, n - k))
    } else {
        None
    }
}

/// The module of a header file stem: the stem without a `_classes`,
/// `_structs`, `_functions` or `_parameters` suffix (the first that
/// matches), else the stem itself.
pub open spec fn module_of_stem(stem: Seq<char>) -> Seq<char> {
    match strip_suffix_chars(stem, "_classes"@) {
        Some(p) => p,
        None => match strip_suffix_chars(stem, "_structs"@) {
            Some(p) => p,
            None => match strip_suffix_chars(stem, "_functions"@) {
                Some(p) => p,
                None => match strip_suffix_chars(stem, "_parameters"@) {
                    Some(p) => p,
                    None => stem,
                },
            },
        },
    }
}

/// `ACLPlugin_classes` gives `ACLPlugin`, `Engine_structs` gives `Engine`.
pub fn module_name_from_stem(stem: &str) -> (r: String)
    ensures
        r@ == module_of_stem(stem@),
{
    if let Some(p) = strip_suffix(stem, "_classes") {
        return String::from_str(p);
    }
    if let Some(p) = strip_suffix(stem, "_structs") {
        return String::from_str(p);
    }
    if let Some(p) = strip_suffix(stem, "_functions") {
        return String::from_str(p);
    }
    if let Some(p) = strip_suffix(stem, "_parameters") {
        return String::from_str(p);
    }
    String::from_str(stem)
}

pub open spec fn ascii_lower(b: u8) -> u8 {
    if 65 <= b <= 90 {
        (b + 32) as u8
    } else {
        b
    }
}

/// `str::eq_ignore_ascii_case`: same length, same bytes up to ASCII case.
pub open spec fn eq_ignore_case(a: Seq<u8>, b: Seq<u8>) -> bool {
    a.len() == b.len() && forall|i: int| 0 <= i < a.len() ==> ascii_lower(#[trigger] a[i]) == ascii_lower(b[i])
}

fn eq_ignore_ascii_case(a: &str, b: &str) -> (r: bool)
    ensures
        r == eq_ignore_case(a.spec_bytes(), b.spec_bytes()),
{
    let x = a.as_bytes();
    let y = b.as_bytes();
    if x.len() != y.len() {
        return false;
    }
    let mut i: usize = 0;
    while i < x.len()
        invariant
            x@ == a.spec_bytes(),
            y@ == b.spec_bytes(),
            x@.len() == y@.len(),
            i <= x@.len(),
            forall|j: int| 0 <= j < i ==> ascii_lower(#[trigger] x@[j]) == ascii_lower(y@[j]),
        decreases x@.len() - i,
    {
        let p = if 65 <= x[i] && x[i] <= 90 {
            x[i] + 32
        } else {
            x[i]
        };
        let q = if 65 <= y[i] && y[i] <= 90 {
            y[i] + 32
        } else {
            y[i]
        };
        if p != q {
            return false;
        }
        i = i + 1;
    }
    true
}

/// Headers never parsed: infrastructure files by name (any case),
/// `_parameters` files, and the `SDK` manifest of includes.
pub open spec fn skipped_file(basename: Seq<char>, stem: Seq<char>) -> bool {
    ||| eq_ignore_case(encode_utf8(basename), encode_utf8("Basic.hpp"@))
    ||| eq_ignore_case(encode_utf8(basename), encode_utf8("PropertyFixup.hpp"@))
    ||| eq_ignore_case(encode_utf8(basename), encode_utf8("UnrealContainers.hpp"@))
    ||| eq_ignore_case(encode_utf8(basename), encode_utf8("UtfN.hpp"@))
    ||| strip_suffix_chars(stem, "_parameters"@) is Some
    ||| eq_ignore_case(encode_utf8(stem), encode_utf8("SDK"@))
}

pub fn should_skip(basename: &str, stem: &str) -> (r: bool)
    ensures
        r == skipped_file(basename@, stem@),
{
    eq_ignore_ascii_case(basename, "Basic.hpp") || eq_ignore_ascii_case(
        basename,
        "PropertyFixup.hpp",
    ) || eq_ignore_ascii_case(basename, "UnrealContainers.hpp") || eq_ignore_ascii_case(
        basename,
        "UtfN.hpp",
    ) || strip_suffix(stem, "_parameters").is_some() || eq_ignore_ascii_case(stem, "SDK")
}

/// A header file of the dump, as read from disk.
pub struct SourceFile {
    /// File name without directory and extension.
    pub stem: String,
    /// File name without directory.
    pub basename: String,
    /// Path shown in messages.
    pub display_path: String,
    /// Path relative to the dump root, with `/` separators.
    pub relative_path: String,
    /// The text, or the error that reading it gave.
    pub contents: Result<String, String>,
}

/// Some readable, parsed file of `files` has `module` as its module.
pub open spec fn module_of_some_file(files: Seq<SourceFile>, module: Seq<char>) -> bool {
    exists|j: int|
        0 <= j < files.len() && !skipped_file(files[j].basename@, files[j].stem@)
            && files[j].contents is Ok && module == module_of_stem(#[trigger] files[j].stem@)
}

fn add_warnings(w: u64, n: u64) -> (r: u64)
    ensures
        r == if w + n <= u64::MAX {
            (w + n) as u64
        } else {
            u64::MAX
        },
{
    if w <= u64::MAX - n {
        w + n
    } else {
        u64::MAX
    }
}

/// File `f` is parsed into a graph of `n` symbols: it is not skipped, it
/// was read, its lines can be numbered, and its tokens leave room for
/// their symbols.
pub open spec fn file_parsed(f: SourceFile, n: nat) -> bool {
    &&& !skipped_file(f.basename@, f.stem@)
    &&& f.contents matches Ok(src) && {
        let b = encode_utf8(src@);
        &&& b.len() + 2 <= usize::MAX
        &&& newlines_from(b, 0) < 4294967295
        &&& lex(b, 0, 1).len() < 4294967294
        &&& n + lex(b, 0, 1).len() < 4294967294
    }
}

/// The graph holds the module symbol of module `m`.
pub open spec fn has_module(syms: Seq<Symbol>, m: Seq<char>) -> bool {
    exists|p: int| 0 <= p < syms.len() && (#[trigger] syms[p]).kind == SymbolKind::Module && syms[p].fqn@ == m
}

/// `w` plus `n` warnings, counted up to `u64::MAX`.
pub open spec fn warn_sum(w: u64, n: u64) -> u64 {
    if w + n <= u64::MAX {
        (w + n) as u64
    } else {
        u64::MAX
    }
}

/// How file `f`, the `k`-th, fares with `n_syms` symbols already in the
/// graph: 0 skipped, 1 unreadable, 2 too many lines, 3 too many symbols,
/// 4 parsed.
pub open spec fn file_fate(f: SourceFile, n_syms: nat) -> int {
    if skipped_file(f.basename@, f.stem@) {
        0
    } else {
        match f.contents {
            Err(_) => 1,
            Ok(src) => {
                let b = encode_utf8(src@);
                if !(b.len() + 2 <= usize::MAX && newlines_from(b, 0) < 4294967295) {
                    2
                } else if lex(b, 0, 1).len() >= 4294967294 || n_syms + lex(b, 0, 1).len() >= 4294967294 {
                    3
                } else {
                    4
                }
            },
        }
    }
}

/// The calls the reading of file `f`, the `k`-th, makes on the reporter:
/// unless it is skipped, its progress, then a warning when it cannot be
/// parsed.
pub open spec fn file_events(f: SourceFile, k: int, n_syms: nat) -> Seq<ReportEvent> {
    let fate = file_fate(f, n_syms);
    let prog = ReportEvent::Progress((k + 1) as u64, "parsing "@ + f.basename@);
    let shown = f.display_path@;
    if fate == 0 {
        Seq::empty()
    } else if fate == 1 {
        seq![prog, ReportEvent::Warn("read "@ + shown + ": "@ + f.contents->Err_0@)]
    } else if fate == 2 {
        seq![prog, ReportEvent::Warn("parse "@ + shown + ": too many lines"@)]
    } else if fate == 3 {
        seq![prog, ReportEvent::Warn("parse "@ + shown + ": too many symbols"@)]
    } else {
        seq![prog]
    }
}

/// The infrastructure headers of a dump, `Basic.hpp`, `PropertyFixup.hpp`,
/// `UnrealContainers.hpp` and `UtfN.hpp` (in any letter case), the
/// `_parameters` headers and the `SDK` manifest (in any letter case) are
/// never parsed: reading one leaves the graph and the warning count as
/// they were, and reports nothing.
pub proof fn law_infrastructure_headers_are_skipped(
    f: SourceFile,
    k: int,
    s0: (GraphBuilder, u64),
    s1: (GraphBuilder, u64),
)
    requires
        eq_ignore_case(encode_utf8(f.basename@), encode_utf8("Basic.hpp"@)) || eq_ignore_case(
            encode_utf8(f.basename@),
            encode_utf8("PropertyFixup.hpp"@),
        ) || eq_ignore_case(encode_utf8(f.basename@), encode_utf8("UnrealContainers.hpp"@))
            || eq_ignore_case(encode_utf8(f.basename@), encode_utf8("UtfN.hpp"@)) || (
        f.stem@.len() >= 11 && f.stem@.subrange(f.stem@.len() - 11, f.stem@.len() as int)
            == "_parameters"@) || eq_ignore_case(encode_utf8(f.stem@), encode_utf8("SDK"@)),
    ensures
        file_step(f, s0, s1) ==> s1 == s0,
        file_events(f, k, s0.0.symbols@.len()) == Seq::<ReportEvent>::empty(),
{
    reveal_strlit("_parameters");
}

/// Any other header is read: unless its name is one of the infrastructure
/// headers (any case), its stem ends in `_parameters`, or its stem is the
/// `SDK` manifest (any case), reading it first reports its progress.
pub proof fn law_other_headers_are_read(f: SourceFile, k: int, n_syms: nat)
    requires
        !eq_ignore_case(encode_utf8(f.basename@), encode_utf8("Basic.hpp"@)),
        !eq_ignore_case(encode_utf8(f.basename@), encode_utf8("PropertyFixup.hpp"@)),
        !eq_ignore_case(encode_utf8(f.basename@), encode_utf8("UnrealContainers.hpp"@)),
        !eq_ignore_case(encode_utf8(f.basename@), encode_utf8("UtfN.hpp"@)),
        !(f.stem@.len() >= 11 && f.stem@.subrange(f.stem@.len() - 11, f.stem@.len() as int)
            == "_parameters"@),
        !eq_ignore_case(encode_utf8(f.stem@), encode_utf8("SDK"@)),
    ensures
        file_events(f, k, n_syms).len() >= 1,
        file_events(f, k, n_syms)[0] == ReportEvent::Progress((k + 1) as u64, "parsing "@ + f.basename@),
{
    reveal_strlit("_parameters");
}

/// A reading of a file: its tokens and the warnings their parse counted.
pub open spec fn tokens_counted(toks: Seq<Token>, w: u64) -> bool {
    true
}

/// What reading file `f` does to the graph and the warning count: a file
/// that is not parsed leaves the graph alone (and counts a warning unless
/// it is skipped); a parsed file is tokenized and its tokens parsed as
/// its module, adding the warnings they counted.
pub open spec fn file_step(f: SourceFile, s0: (GraphBuilder, u64), s1: (GraphBuilder, u64)) -> bool {
    let fate = file_fate(f, s0.0.symbols@.len());
    if fate != 4 {
        &&& s1.0 == s0.0
        &&& s1.1 == (if fate == 0 {
            s0.1
        } else {
            warn_sum(s0.1, 1)
        })
    } else {
        exists|toks: Seq<Token>, w: u64|
            {
                &&& #[trigger] tokens_counted(toks, w)
                &&& lexemes(toks) == lex(encode_utf8(f.contents->Ok_0@), 0, 1)
                &&& module_parsed(module_of_stem(f.stem@), f.relative_path@, toks, s0.0, s1.0, w)
                &&& s1.1 == warn_sum(s0.1, w)
            }
    }
}

/// Reading the files from the `k`-th on takes state `s0` to `s1`, and
/// the reporter receives `ev`.
pub open spec fn files_ok(
    files: Seq<SourceFile>,
    k: int,
    s0: (GraphBuilder, u64),
    s1: (GraphBuilder, u64),
    ev: Seq<ReportEvent>,
) -> bool
    decreases files.len() - k,
{
    if k < 0 || k >= files.len() {
        s1 == s0 && ev == Seq::<ReportEvent>::empty()
    } else {
        let fe = file_events(files[k], k, s0.0.symbols@.len());
        exists|sm: (GraphBuilder, u64)|
            {
                &&& #[trigger] reached(sm, k)
                &&& file_step(files[k], s0, sm)
                &&& fe.len() <= ev.len()
                &&& ev.take(fe.len() as int) == fe
                &&& files_ok(files, k + 1, sm, s1, ev.skip(fe.len() as int))
            }
    }
}

/// A sequence of reporter calls (an anchor for the statement below).
pub open spec fn reported(ev: Seq<ReportEvent>) -> bool {
    true
}

/// The closing calls: `finished`, then the warning count when there are
/// warnings.
pub open spec fn closing_events(w: u64) -> Seq<ReportEvent> {
    if w > 0 {
        seq![
            ReportEvent::Finished,
            ReportEvent::Warn("parser ran with "@ + decimal(w as nat) + " warning(s)"@),
        ]
    } else {
        seq![ReportEvent::Finished]
    }
}

proof fn lemma_files_step(
    files: Seq<SourceFile>,
    k: int,
    s0: (GraphBuilder, u64),
    sm: (GraphBuilder, u64),
    s1: (GraphBuilder, u64),
    evr: Seq<ReportEvent>,
)
    requires
        0 <= k < files.len(),
        file_step(files[k], s0, sm),
        files_ok(files, k + 1, sm, s1, evr),
    ensures
        files_ok(files, k, s0, s1, file_events(files[k], k, s0.0.symbols@.len()) + evr),
{
    let fe = file_events(files[k], k, s0.0.symbols@.len());
    let ev = fe + evr;
    assert(ev.take(fe.len() as int) =~= fe);
    assert(ev.skip(fe.len() as int) =~= evr);
    assert(reached(sm, k));
}

/// Reads file `f`, the `k`-th: reports its progress, then either parses
/// its tokens as its module or reports why it cannot.
fn parse_source_file<R: Reporter>(
    f: &SourceFile,
    k: usize,
    builder: &mut GraphBuilder,
    warnings: &mut u64,
    reporter: &mut R,
)
    requires
        old(builder).wf(),
        k < usize::MAX,
    ensures
        final(builder).wf(),
        file_step(*f, (*old(builder), *old(warnings)), (*final(builder), *final(warnings))),
        old(reporter).keeps_log() ==> final(reporter).keeps_log() && final(reporter).log()
            == old(reporter).log() + file_events(*f, k as int, old(builder).symbols@.len()),
        old(builder).symbols@.len() <= final(builder).symbols@.len(),
        forall|p: int|
            0 <= p < old(builder).symbols@.len() ==> (#[trigger] final(builder).symbols@[p]).fqn
                == old(builder).symbols@[p].fqn && final(builder).symbols@[p].kind
                == old(builder).symbols@[p].kind && final(builder).symbols@[p].module
                == old(builder).symbols@[p].module,
        forall|p: int|
            old(builder).symbols@.len() <= p < final(builder).symbols@.len()
                ==> (#[trigger] final(builder).symbols@[p]).module@ == module_of_stem(f.stem@),
        final(builder).symbols@.len() > old(builder).symbols@.len() ==> !skipped_file(
            f.basename@,
            f.stem@,
        ) && f.contents is Ok,
        file_parsed(*f, final(builder).symbols@.len()) ==> has_module(
            final(builder).symbols@,
            module_of_stem(f.stem@),
        ),
{
    let ghost n0 = builder.symbols@.len();
    if should_skip(f.basename.as_str(), f.stem.as_str()) {
        return;
    }
    let label = concat("parsing ", f.basename.as_str());
    reporter.progress((k as u64) + 1, label.as_str());
    let module = module_name_from_stem(f.stem.as_str());
    match &f.contents {
        Err(e) => {
            let a = concat("read ", f.display_path.as_str());
            let b = concat(a.as_str(), ": ");
            let m = concat(b.as_str(), e.as_str());
            reporter.warn(m.as_str());
            *warnings = add_warnings(*warnings, 1);
        },
        Ok(src) => {
            let bytes = src.as_str().as_bytes();
            let n_lines = newline_count(bytes);
            // No text comes near `usize::MAX` bytes (a `str` holds at most
            // `isize::MAX`); lines beyond `u32` cannot be numbered.
            if bytes.len() > usize::MAX - 2 || n_lines >= 4294967295usize {
                let a = concat("parse ", f.display_path.as_str());
                let m = concat(a.as_str(), ": too many lines");
                reporter.warn(m.as_str());
                *warnings = add_warnings(*warnings, 1);
            } else {
                let tokens = tokenize(src.as_str());
                let n_syms = builder.symbols.len();
                if tokens.len() >= 4294967294usize || n_syms >= 4294967294usize - tokens.len() {
                    let a = concat("parse ", f.display_path.as_str());
                    let m = concat(a.as_str(), ": too many symbols");
                    reporter.warn(m.as_str());
                    *warnings = add_warnings(*warnings, 1);
                } else {
                    let ghost w0 = *warnings;
                    match parse_module(
                        module.as_str(),
                        f.relative_path.as_str(),
                        tokens.as_slice(),
                        builder,
                    ) {
                        Ok(w) => {
                            *warnings = add_warnings(*warnings, w);
                            proof {
                                assert(tokens_counted(tokens@, w));
                                assert(builder.symbols@[n0 as int].kind == SymbolKind::Module);
                            }
                        },
                        Err(e) => {
                            let a = concat("parse ", f.display_path.as_str());
                            let b = concat(a.as_str(), ": ");
                            let m = concat(b.as_str(), e.as_str());
                            reporter.warn(m.as_str());
                            *warnings = add_warnings(*warnings, 1);
                        },
                    }
                }
            }
        },
    }
}

/// The graph parsed from the header files of a dump, in the order given:
/// each file that is not skipped is tokenized and parsed as its module;
/// type references are then resolved across all files. Unreadable and
/// unparsable files are reported as warnings and left out.
pub fn parse_sources<R: Reporter>(
    files: &Vec<SourceFile>,
    game_id: String,
    game_version: String,
    sdk_root: String,
    reporter: &mut R,
) -> (r: Result<SymbolGraph, ParseError>)
    ensures
        r matches Ok(g) && {
            &&& graph_ok(g.symbols@, g.relations@)
            &&& g.source.parser@ == PARSER_NAME@
            &&& g.source.parser_version@ == PARSER_VERSION@
            &&& g.source.game_id == game_id
            &&& g.source.game_version == game_version
            &&& g.source.sdk_root == sdk_root
            &&& forall|p: int|
                0 <= p < g.symbols@.len() ==> module_of_some_file(
                    files@,
                    (#[trigger] g.symbols@[p]).module@,
                )
            &&& forall|j: int|
                0 <= j < files@.len() && file_parsed(#[trigger] files@[j], g.symbols@.len()) ==> has_module(
                    g.symbols@,
                    module_of_stem(files@[j].stem@),
                )
            &&& exists|s0: (GraphBuilder, u64), sf: (GraphBuilder, u64), ev: Seq<ReportEvent>|
                #![trigger reached(s0, 0), reached(sf, files@.len() as int), reported(ev)]
                {
                    &&& s0.0.symbols@.len() == 0
                    &&& s0.0.relations@.len() == 0
                    &&& s0.0.pending_type_resolutions@.len() == 0
                    &&& s0.1 == 0
                    &&& files_ok(files@, 0, s0, sf, ev)
                    &&& resolution_of(sf.0.symbols@, sf.0.pending_type_resolutions@, g.symbols@)
                    &&& g.relations@ == sf.0.relations@ + of_type_upto(g.symbols@, g.symbols@.len())
                    &&& old(reporter).keeps_log() ==> final(reporter).keeps_log() && final(reporter).log()
                        == old(reporter).log().push(ReportEvent::Started(Some(files@.len() as u64))) + ev
                        + closing_events(sf.1)
                }
        },
{
    reporter.started(Some(files.len() as u64));
    let ghost log1 = reporter.log();
    let mut builder = GraphBuilder::new();
    let mut warnings: u64 = 0;
    let ghost s_init = (builder, 0u64);
    let ghost mut ev: Seq<ReportEvent> = Seq::empty();
    let mut i: usize = 0;
    while i < files.len()
        invariant
            builder.wf(),
            i <= files@.len(),
            s_init.0.symbols@.len() == 0,
            s_init.0.relations@.len() == 0,
            s_init.0.pending_type_resolutions@.len() == 0,
            s_init.1 == 0,
            forall|p: int|
                0 <= p < builder.symbols@.len() ==> module_of_some_file(
                    files@,
                    (#[trigger] builder.symbols@[p]).module@,
                ),
            forall|j: int|
                0 <= j < i && file_parsed(#[trigger] files@[j], builder.symbols@.len()) ==> has_module(
                    builder.symbols@,
                    module_of_stem(files@[j].stem@),
                ),
            forall|x: (GraphBuilder, u64), evr: Seq<ReportEvent>|
                #[trigger] files_ok(files@, i as int, (builder, warnings), x, evr) ==> files_ok(
                    files@,
                    0,
                    s_init,
                    x,
                    ev + evr,
                ),
            old(reporter).keeps_log() ==> reporter.keeps_log() && reporter.log() == log1 + ev,
            old(reporter).keeps_log() ==> log1 == old(reporter).log().push(
                ReportEvent::Started(Some(files@.len() as u64)),
            ),
        decreases files@.len() - i,
    {
        let ghost b0 = builder;
        let ghost w0 = warnings;
        let ghost ev0 = ev;
        let ghost fe = file_events(files@[i as int], i as int, b0.symbols@.len());
        parse_source_file(&files[i], i, &mut builder, &mut warnings, reporter);
        proof {
            let f = files@[i as int];
            assert forall|p: int|
                0 <= p < builder.symbols@.len() implies module_of_some_file(
                files@,
                (#[trigger] builder.symbols@[p]).module@,
            ) by {
                if p < b0.symbols@.len() {
                    assert(builder.symbols@[p].module == b0.symbols@[p].module);
                } else {
                    assert(builder.symbols@[p].module@ == module_of_stem(f.stem@));
                }
            }
            assert forall|j: int|
                0 <= j <= i && file_parsed(#[trigger] files@[j], builder.symbols@.len())
                    implies has_module(builder.symbols@, module_of_stem(files@[j].stem@)) by {
                if j < i {
                    assert(file_parsed(files@[j], b0.symbols@.len()));
                    let q = choose|q: int|
                        0 <= q < b0.symbols@.len() && (#[trigger] b0.symbols@[q]).kind
                            == SymbolKind::Module && b0.symbols@[q].fqn@ == module_of_stem(
                            files@[j].stem@,
                        );
                    assert(builder.symbols@[q].kind == b0.symbols@[q].kind);
                    assert(builder.symbols@[q].fqn == b0.symbols@[q].fqn);
                }
            }
            let s1 = (builder, warnings);
            assert forall|x: (GraphBuilder, u64), evr: Seq<ReportEvent>|
                #[trigger] files_ok(files@, i + 1, s1, x, evr) implies files_ok(
                files@,
                0,
                s_init,
                x,
                (ev0 + fe) + evr,
            ) by {
                lemma_files_step(files@, i as int, (b0, w0), s1, x, evr);
                assert(ev0 + (fe + evr) =~= (ev0 + fe) + evr);
            }
            ev = ev0 + fe;
            if old(reporter).keeps_log() {
                assert(log1 + ev0 + fe =~= log1 + ev);
            }
        }
        i = i + 1;
    }
    proof {
        assert(files_ok(files@, i as int, (builder, warnings), (builder, warnings), Seq::empty()));
        assert(ev + Seq::<ReportEvent>::empty() =~= ev);
    }
    let ghost before = builder;
    builder.resolve_references();
    proof {
        assert forall|j: int|
            0 <= j < files@.len() && file_parsed(#[trigger] files@[j], builder.symbols@.len())
                implies has_module(builder.symbols@, module_of_stem(files@[j].stem@)) by {
            let q = choose|q: int|
                0 <= q < before.symbols@.len() && (#[trigger] before.symbols@[q]).kind == SymbolKind::Module
                    && before.symbols@[q].fqn@ == module_of_stem(files@[j].stem@);
            assert(builder.symbols@[q].kind == before.symbols@[q].kind);
            assert(builder.symbols@[q].fqn == before.symbols@[q].fqn);
        }
        assert forall|p: int| 0 <= p < builder.symbols@.len() implies module_of_some_file(
            files@,
            (#[trigger] builder.symbols@[p]).module@,
        ) by {
            assert(before.symbols@[p].module == builder.symbols@[p].module);
        }
    }
    let ghost log2 = reporter.log();
    reporter.finished();
    if warnings > 0 {
        let d = u64_decimal(warnings);
        let a = concat("parser ran with ", d.as_str());
        let m = concat(a.as_str(), " warning(s)");
        reporter.warn(m.as_str());
    }
    proof {
        if old(reporter).keeps_log() {
            assert(reporter.log() =~= old(reporter).log().push(
                ReportEvent::Started(Some(files@.len() as u64)),
            ) + ev + closing_events(warnings));
        }
        assert(reached(s_init, 0));
        assert(reached((before, warnings), files@.len() as int));
        assert(reported(ev));
        assert(files_ok(files@, 0, s_init, (before, warnings), ev));
        assert(resolution_of(before.symbols@, before.pending_type_resolutions@, builder.symbols@));
    }
    let GraphBuilder { symbols, relations, .. } = builder;
    Ok(
        SymbolGraph {
            source: SourceMeta {
                parser: String::from_str(PARSER_NAME),
                parser_version: String::from_str(PARSER_VERSION),
                game_id,
                game_version,
                ingested_at: now_rfc3339(),
                sdk_root,
            },
            symbols,
            relations,
        },
    )
}

/// Game name and version from the dump's metadata file.
pub struct SdkInfo {
    pub game_name: String,
    pub game_version: String,
}

/// What the metadata JSON holds that matters: the nested `game` object
/// (if the key is there) with its `name` and `version` strings, and the
/// flat `GameName` and `GameVersion` strings.
pub struct SdkJson {
    pub game: Option<(Option<String>, Option<String>)>,
    pub flat_name: Option<String>,
    pub flat_version: Option<String>,
}

pub open spec fn or_text(o: Option<String>, d: Seq<char>) -> Seq<char> {
    match o {
        Some(s) => s@,
        None => d,
    }
}

fn text_or(o: Option<String>, d: &str) -> (r: String)
    ensures
        r@ == or_text(o, d@),
{
    match o {
        Some(s) => s,
        None => String::from_str(d),
    }
}

impl SdkInfo {
    /// The Dumper-7 nested shape when a `game` key is there, else the
    /// flat shape; a missing string reads as `UnknownGame` or `unknown`.
    pub fn from_json(j: SdkJson) -> (r: SdkInfo)
        ensures
            match j.game {
                Some(g) => r.game_name@ == or_text(g.0, "UnknownGame"@) && r.game_version@
                    == or_text(g.1, "unknown"@),
                None => r.game_name@ == or_text(j.flat_name, "UnknownGame"@)
                    && r.game_version@ == or_text(j.flat_version, "unknown"@),
            },
    {
        match j.game {
            Some((name, version)) => SdkInfo {
                game_name: text_or(name, "UnknownGame"),
                game_version: text_or(version, "unknown"),
            },
            None => SdkInfo {
                game_name: text_or(j.flat_name, "UnknownGame"),
                game_version: text_or(j.flat_version, "unknown"),
            },
        }
    }
}

/// Game id and version of a dump: from its metadata when it has some,
/// else the dump folder's name (or `UnknownGame`) and `unknown`.
pub fn game_identity(info: Option<SdkInfo>, root_name: Option<String>) -> (r: (String, String))
    ensures
        match info {
            Some(i) => r.0 == i.game_name && r.1 == i.game_version,
            None => r.0@ == or_text(root_name, "UnknownGame"@) && r.1@ == "unknown"@,
        },
{
    match info {
        Some(i) => (i.game_name, i.game_version),
        None => (text_or(root_name, "UnknownGame"), String::from_str("unknown")),
    }
}

} // verus!
