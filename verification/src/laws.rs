//! The library's general laws, stated and proved over the spec-level models
//! that the executable functions' contracts use: which tokens of an accepted
//! argument vector end up as target filenames, and that the position
//! notation the command builder emits decodes back to the position it was
//! built from.

use crate::args::ScanState;
use crate::args::TargetModel;
use crate::args::column_value;
use crate::args::init_state;
use crate::args::is_column_option;
use crate::args::is_line_option;
use crate::args::is_noop_token;
use crate::args::is_sln_name;
use crate::args::is_unsupported_token;
use crate::args::is_wait_token;
use crate::args::line_value;
use crate::args::parse_spec;
use crate::args::scan;
use crate::command::position_token;
use crate::num::all_digits;
use crate::num::dec_rep;
use crate::num::digits_val;
use crate::num::is_ascii_digit;
use crate::num::lemma_dec_rep_all_digits;
use crate::num::lemma_dec_rep_val;
use vstd::prelude::*;

verus! {

/// The filenames of a list of targets, in order.
pub open spec fn names(ts: Seq<TargetModel>) -> Seq<Seq<char>> {
    ts.map_values(|t: TargetModel| t.filename)
}

/// The tokens the scan consumes as filenames, given whether it has already
/// entered the filename list.
pub open spec fn filename_tokens(toks: Seq<Seq<char>>, in_files: bool) -> Seq<Seq<char>>
    decreases toks.len(),
{
    if toks.len() == 0 {
        Seq::empty()
    } else {
        let t = toks[0];
        let rest = toks.drop_first();
        if !in_files && (is_noop_token(t) || is_wait_token(t) || is_unsupported_token(t)) {
            filename_tokens(rest, in_files)
        } else if is_line_option(t) || is_column_option(t) {
            if rest.len() == 0 {
                Seq::empty()
            } else {
                filename_tokens(rest.drop_first(), true)
            }
        } else {
            seq![t] + filename_tokens(rest, true)
        }
    }
}

/// The scan accepts the tokens: no unsupported leading command stops it,
/// and every position option is followed by a well-formed value.
pub open spec fn scan_accepts(toks: Seq<Seq<char>>, in_files: bool) -> bool
    decreases toks.len(),
{
    if toks.len() == 0 {
        true
    } else {
        let t = toks[0];
        let rest = toks.drop_first();
        if !in_files && (is_noop_token(t) || is_wait_token(t)) {
            scan_accepts(rest, in_files)
        } else if !in_files && is_unsupported_token(t) {
            false
        } else if is_line_option(t) {
            rest.len() > 0 && line_value(rest[0]) is Some && scan_accepts(rest.drop_first(), true)
        } else if is_column_option(t) {
            rest.len() > 0 && column_value(rest[0]) is Some && scan_accepts(
                rest.drop_first(),
                true,
            )
        } else {
            scan_accepts(rest, true)
        }
    }
}

/// On accepted tokens the scan succeeds, and the filenames it collects,
/// in order, are exactly the tokens it consumed as filenames.
pub proof fn lemma_scan_filenames(toks: Seq<Seq<char>>, st: ScanState)
    requires
        scan_accepts(toks, st.in_files),
    ensures
        scan(toks, st) matches Ok(st2) && names(st2.targets) == names(st.targets)
            + filename_tokens(toks, st.in_files),
    decreases toks.len(),
{
    if toks.len() == 0 {
        assert(names(st.targets) + filename_tokens(toks, st.in_files) =~= names(st.targets));
    } else {
        let t = toks[0];
        let rest = toks.drop_first();
        if !st.in_files && is_noop_token(t) {
            lemma_scan_filenames(rest, st);
        } else if !st.in_files && is_wait_token(t) {
            let st1 = ScanState {
                wait: true,
                in_files: st.in_files,
                line: st.line,
                column: st.column,
                targets: st.targets,
            };
            lemma_scan_filenames(rest, st1);
        } else if is_line_option(t) {
            let v = line_value(rest[0])->Some_0;
            let st1 = ScanState {
                wait: st.wait,
                in_files: true,
                line: Some(v),
                column: st.column,
                targets: st.targets,
            };
            lemma_scan_filenames(rest.drop_first(), st1);
        } else if is_column_option(t) {
            let v = column_value(rest[0])->Some_0;
            let st1 = ScanState {
                wait: st.wait,
                in_files: true,
                line: st.line,
                column: Some(v),
                targets: st.targets,
            };
            lemma_scan_filenames(rest.drop_first(), st1);
        } else {
            let tm = TargetModel { line: st.line, column: st.column, filename: t };
            let st1 = ScanState {
                wait: st.wait,
                in_files: true,
                line: None,
                column: None,
                targets: st.targets.push(tm),
            };
            lemma_scan_filenames(rest, st1);
            assert(names(st.targets.push(tm)) =~= names(st.targets).push(t));
            assert(names(st.targets).push(t) + filename_tokens(rest, true) =~= names(st.targets)
                + (seq![t] + filename_tokens(rest, true)));
        }
    }
}

/// Filtering targets by filename and then reading the filenames is the same
/// as reading the filenames and filtering those.
pub proof fn lemma_names_filter(ts: Seq<TargetModel>)
    ensures
        names(ts.filter(|t: TargetModel| !is_sln_name(t.filename))) == names(ts).filter(
            |s: Seq<char>| !is_sln_name(s),
        ),
    decreases ts.len(),
{
    reveal(Seq::filter);
    if ts.len() == 0 {
        assert(names(ts) =~= Seq::<Seq<char>>::empty());
        assert(names(ts.filter(|t: TargetModel| !is_sln_name(t.filename))) =~= Seq::<
            Seq<char>,
        >::empty());
    } else {
        lemma_names_filter(ts.drop_last());
        assert(names(ts).drop_last() =~= names(ts.drop_last()));
        assert(names(ts).last() == ts.last().filename);
        if !is_sln_name(ts.last().filename) {
            assert(names(ts.drop_last().filter(|t: TargetModel| !is_sln_name(t.filename)).push(
                ts.last(),
            )) =~= names(ts.drop_last().filter(|t: TargetModel| !is_sln_name(t.filename))).push(
                ts.last().filename,
            ));
        }
        assert(names(ts.filter(|t: TargetModel| !is_sln_name(t.filename))) =~= names(
            ts,
        ).filter(|s: Seq<char>| !is_sln_name(s)));
    }
}

/// Whenever the argument vector is accepted by the scan and at least
/// one token is consumed as a filename, parsing succeeds, and the parsed
/// filenames, in order, are exactly those tokens — all of them when exactly
/// one was consumed, and the non-solution-file ones otherwise.  The result
/// still holds a target whenever a sole token was consumed or some consumed
/// token is not a solution file.
pub proof fn lemma_parse_spec_filenames(toks: Seq<Seq<char>>)
    requires
        scan_accepts(toks, false),
        filename_tokens(toks, false).len() > 0,
    ensures
        parse_spec(toks) matches Ok(a) && ({
            let ftoks = filename_tokens(toks, false);
            let kept = if ftoks.len() == 1 {
                ftoks
            } else {
                ftoks.filter(|s: Seq<char>| !is_sln_name(s))
            };
            &&& names(a.targets) == kept
            &&& a.targets.len() == kept.len()
            &&& (ftoks.len() == 1 || (exists|i: int|
                0 <= i < ftoks.len() && !is_sln_name(ftoks[i]))) ==> a.targets.len() > 0
        }),
{
    let st0 = init_state();
    assert(st0.in_files == false);
    lemma_scan_filenames(toks, st0);
    let st2 = scan(toks, st0)->Ok_0;
    let ftoks = filename_tokens(toks, false);
    assert(names(st0.targets) + ftoks =~= ftoks);
    assert(names(st2.targets) == ftoks);
    assert(st2.targets.len() == ftoks.len());
    let a = parse_spec(toks)->Ok_0;
    if ftoks.len() == 1 {
        assert(a.targets == st2.targets);
    } else {
        lemma_names_filter(st2.targets);
        assert(names(st2.targets).filter(|s: Seq<char>| !is_sln_name(s)) == ftoks.filter(
            |s: Seq<char>| !is_sln_name(s),
        ));
        assert(a.targets.len() == names(a.targets).len());
        if exists|i: int| 0 <= i < ftoks.len() && !is_sln_name(ftoks[i]) {
            let i = choose|i: int| 0 <= i < ftoks.len() && !is_sln_name(ftoks[i]);
            let pred = |t: TargetModel| !is_sln_name(t.filename);
            assert(names(st2.targets)[i] == ftoks[i]);
            assert(pred(st2.targets[i]));
            st2.targets.lemma_filter_contains(pred, i);
            assert(st2.targets.filter(pred).contains(st2.targets[i]));
            assert(st2.targets.filter(pred).len() > 0);
        }
    }
}

/// Whenever parsing succeeds with more than one target, none of them is a
/// solution file: solution files survive only as a sole target.
pub proof fn lemma_no_solution_file_among_many(toks: Seq<Seq<char>>)
    requires
        parse_spec(toks) is Ok,
        parse_spec(toks)->Ok_0.targets.len() > 1,
    ensures
        forall|i: int|
            0 <= i < parse_spec(toks)->Ok_0.targets.len() ==> !is_sln_name(
                #[trigger] parse_spec(toks)->Ok_0.targets[i].filename,
            ),
{
    let st = scan(toks, init_state())->Ok_0;
    let kept = parse_spec(toks)->Ok_0.targets;
    if st.targets.len() == 1 {
        assert(kept == st.targets);
    } else {
        let pred = |t: TargetModel| !is_sln_name(t.filename);
        assert forall|i: int| 0 <= i < kept.len() implies !is_sln_name(
            kept[i].filename,
        ) by {
            st.targets.lemma_filter_pred(pred, i);
        }
    }
}

/// Where the first `':'` splits a character sequence: what stands before
/// it, and what after it, if there is one.
pub open spec fn split_colon(s: Seq<char>) -> (Seq<char>, Option<Seq<char>>)
    decreases s.len(),
{
    if s.len() == 0 {
        (Seq::<char>::empty(), None::<Seq<char>>)
    } else if s[0] == ':' {
        (Seq::<char>::empty(), Some(s.drop_first()))
    } else {
        let r = split_colon(s.drop_first());
        (seq![s[0]] + r.0, r.1)
    }
}

/// Reading a plain digit string as an unsigned 32-bit value.
pub open spec fn read_u32(s: Seq<char>) -> Option<u32> {
    if s.len() > 0 && all_digits(s) && digits_val(s) <= u32::MAX {
        Some(digits_val(s) as u32)
    } else {
        None
    }
}

/// Decoding a position token back into the position it denotes: `+line`,
/// or `+line:column`.
pub open spec fn decode_position(s: Seq<char>) -> Option<(u32, Option<u32>)> {
    if s.len() > 0 && s[0] == '+' {
        let parts = split_colon(s.drop_first());
        match parts.1 {
            Some(cs) => match (read_u32(parts.0), read_u32(cs)) {
                (Some(l), Some(c)) => Some((l, Some(c))),
                _ => None,
            },
            None => match read_u32(parts.0) {
                Some(l) => Some((l, None::<u32>)),
                None => None,
            },
        }
    } else {
        None
    }
}

proof fn lemma_split_colon_no_colon(a: Seq<char>)
    requires
        forall|i: int| 0 <= i < a.len() ==> a[i] != ':',
    ensures
        split_colon(a) == (a, None::<Seq<char>>),
    decreases a.len(),
{
    if a.len() > 0 {
        lemma_split_colon_no_colon(a.drop_first());
        assert(seq![a[0]] + a.drop_first() =~= a);
    }
}

proof fn lemma_split_colon_at(a: Seq<char>, b: Seq<char>)
    requires
        forall|i: int| 0 <= i < a.len() ==> a[i] != ':',
    ensures
        split_colon(a + seq![':'] + b) == (a, Some(b)),
    decreases a.len(),
{
    let s = a + seq![':'] + b;
    if a.len() == 0 {
        assert(s[0] == ':');
        assert(s.drop_first() =~= b);
        assert(split_colon(s).0 =~= a);
    } else {
        assert(s[0] == a[0]);
        assert(s.drop_first() =~= a.drop_first() + seq![':'] + b);
        lemma_split_colon_at(a.drop_first(), b);
        assert(seq![a[0]] + a.drop_first() =~= a);
    }
}

/// Digits are not colons.
proof fn lemma_digits_no_colon(s: Seq<char>)
    requires
        all_digits(s),
    ensures
        forall|i: int| 0 <= i < s.len() ==> s[i] != ':',
{
    assert forall|i: int| 0 <= i < s.len() implies s[i] != ':' by {
        assert(is_ascii_digit(s[i]));
    }
}

/// Reading back the decimal representation of a 32-bit value gives the
/// value.
proof fn lemma_read_u32_dec_rep(n: u32)
    ensures
        read_u32(dec_rep(n as nat)) == Some(n),
{
    lemma_dec_rep_all_digits(n as nat);
    lemma_dec_rep_val(n as nat);
}

/// The line the builder writes into the position token: the target's own,
/// or 1 when only the column is known.
pub open spec fn effective_line(t: TargetModel) -> u32 {
    match t.line {
        Some(l) => l,
        None => 1u32,
    }
}

/// The position notation round-trips.  For any target, decoding the
/// position token the command builder emits yields exactly the position the
/// token was built from: the effective line together with the column when
/// the column is known, the bare line when only the line is, and no token
/// at all when neither is.
pub proof fn lemma_position_round_trip(t: TargetModel)
    ensures
        t.column matches Some(c) ==> (position_token(t).len() == 1 && decode_position(
            position_token(t)[0],
        ) == Some((effective_line(t), Some(c)))),
        t.line is Some && t.column is None ==> (position_token(t).len() == 1
            && decode_position(position_token(t)[0]) == Some((t.line->Some_0, None::<u32>))),
        t.column is None && t.line is None ==> position_token(t).len() == 0,
{
    reveal_strlit("+");
    reveal_strlit(":");
    assert("+"@ =~= seq!['+']);
    assert(":"@ =~= seq![':']);
    match t.column {
        Some(c) => {
            let l = effective_line(t);
            let tok = position_token(t)[0];
            assert(tok =~= seq!['+'] + dec_rep(l as nat) + seq![':'] + dec_rep(c as nat));
            lemma_dec_rep_all_digits(l as nat);
            lemma_dec_rep_all_digits(c as nat);
            assert(tok[0] == '+');
            assert(tok.drop_first() =~= dec_rep(l as nat) + seq![':'] + dec_rep(c as nat));
            lemma_digits_no_colon(dec_rep(l as nat));
            lemma_split_colon_at(dec_rep(l as nat), dec_rep(c as nat));
            lemma_read_u32_dec_rep(l);
            lemma_read_u32_dec_rep(c);
        },
        None => {
            match t.line {
                Some(l) => {
                    let tok = position_token(t)[0];
                    assert(tok =~= seq!['+'] + dec_rep(l as nat));
                    lemma_dec_rep_all_digits(l as nat);
                    assert(tok[0] == '+');
                    assert(tok.drop_first() =~= dec_rep(l as nat));
                    lemma_digits_no_colon(dec_rep(l as nat));
                    lemma_split_colon_no_colon(dec_rep(l as nat));
                    lemma_read_u32_dec_rep(l);
                },
                None => {},
            }
        },
    }
}

} // verus!
