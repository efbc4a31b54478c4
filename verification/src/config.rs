//! The declaration parser: turns the attribute payload — a sequence of
//! `name = range` bindings and bare flag tokens — into a validated
//! configuration, or the error the first offending entry causes.
//!
//! The payload is scanned left to right. A binding whose name was
//! already bound is a duplicate-key error; a bare flag other than
//! `option` or `keep` is an unknown-flag error; asking for both modes
//! is a conflict, detected after the whole payload has been read.

use vstd::prelude::*;

verus! {

/// The three mutually exclusive accessor behaviours. `Basic` trusts the
/// caller to stay in range, `Optional` reports absence out of range,
/// `Keep` falls back to the original function out of range. `Basic` is
/// the default when neither flag is given.
#[derive(Clone, Copy, PartialEq, Eq, Structural, Debug)]
pub enum Mode {
    Basic,
    Optional,
    Keep,
}

/// One entry of the attribute payload: a `name = range` binding or a
/// bare flag token. The range payload `R` is carried through untouched.
pub enum Entry<R> {
    Binding { name: String, range: R },
    Flag { name: String },
}

/// A validated range binding: one argument name and its range payload.
pub struct RangeBinding<R> {
    pub name: String,
    pub range: R,
}

/// The configuration errors, each carrying the offending key.
#[derive(Debug)]
pub enum ConfigError {
    DuplicateKey { name: String },
    UnknownFlag { name: String },
    ModeConflict,
}

/// The parsed configuration: the bindings in declaration order, names
/// unique, and the selected mode.
pub struct Config<R> {
    pub bindings: Vec<RangeBinding<R>>,
    pub mode: Mode,
}

/// The abstract view of a binding list: each name as a character
/// sequence beside its payload.
pub open spec fn bindings_view<R>(bs: Seq<RangeBinding<R>>) -> Seq<(Seq<char>, R)> {
    bs.map_values(|b: RangeBinding<R>| (b.name@, b.range))
}

/// Whether the binding list already holds the given name.
pub open spec fn contains_name<R>(bs: Seq<(Seq<char>, R)>, n: Seq<char>) -> bool {
    exists|k: int| 0 <= k < bs.len() && bs[k].0 == n
}

/// The payload of the first binding with the given name.
pub open spec fn range_of<R>(bs: Seq<(Seq<char>, R)>, n: Seq<char>) -> R
    decreases bs.len(),
{
    if bs.len() == 0 {
        arbitrary()
    } else if bs[0].0 == n {
        bs[0].1
    } else {
        range_of(bs.skip(1), n)
    }
}

/// What a left-to-right scan of the payload produces: the accumulated
/// bindings and flags, or the first offending key.
pub enum ParseScan<R> {
    Done { bindings: Seq<(Seq<char>, R)>, option_flag: bool, keep_flag: bool },
    Duplicate { name: Seq<char> },
    Unknown { name: Seq<char> },
}

/// The scan itself: entries are consumed in order; a rebound name or an
/// unrecognized flag stops the scan at once.
pub open spec fn parse_scan<R>(
    es: Seq<Entry<R>>,
    bs: Seq<(Seq<char>, R)>,
    option_flag: bool,
    keep_flag: bool,
) -> ParseScan<R>
    decreases es.len(),
{
    if es.len() == 0 {
        ParseScan::Done { bindings: bs, option_flag, keep_flag }
    } else {
        match es[0] {
            Entry::Binding { name, range } => {
                if contains_name(bs, name@) {
                    ParseScan::Duplicate { name: name@ }
                } else {
                    parse_scan(es.skip(1), bs.push((name@, range)), option_flag, keep_flag)
                }
            },
            Entry::Flag { name } => {
                if name@ == "option"@ {
                    parse_scan(es.skip(1), bs, true, keep_flag)
                } else if name@ == "keep"@ {
                    parse_scan(es.skip(1), bs, option_flag, true)
                } else {
                    ParseScan::Unknown { name: name@ }
                }
            },
        }
    }
}

/// The `name = range` bindings of the payload, in payload order.
pub open spec fn spec_bindings<R>(es: Seq<Entry<R>>) -> Seq<(Seq<char>, R)>
    decreases es.len(),
{
    if es.len() == 0 {
        Seq::empty()
    } else {
        match es[0] {
            Entry::Binding { name, range } => seq![(name@, range)] + spec_bindings(es.skip(1)),
            Entry::Flag { name } => spec_bindings(es.skip(1)),
        }
    }
}

/// Whether the payload carries the given bare flag.
pub open spec fn has_flag<R>(es: Seq<Entry<R>>, f: Seq<char>) -> bool {
    exists|k: int|
        0 <= k < es.len() && ((#[trigger] es[k]) matches Entry::Flag { name } && name@ == f)
}

/// No two bindings share a name.
pub open spec fn names_unique<R>(bs: Seq<(Seq<char>, R)>) -> bool {
    forall|i: int, j: int| 0 <= i < j < bs.len() ==> bs[i].0 != bs[j].0
}

/// What a successful scan accumulates: exactly the payload's bindings,
/// appended in order and free of duplicates, and one flag bit per mode
/// flag present. So a parsed configuration holds every declared
/// binding once, in declaration order.
pub proof fn lemma_scan_done<R>(
    es: Seq<Entry<R>>,
    bs: Seq<(Seq<char>, R)>,
    option_flag: bool,
    keep_flag: bool,
)
    requires
        names_unique(bs),
        parse_scan(es, bs, option_flag, keep_flag) is Done,
    ensures
        parse_scan(es, bs, option_flag, keep_flag) == (ParseScan::Done {
            bindings: bs + spec_bindings(es),
            option_flag: option_flag || has_flag(es, "option"@),
            keep_flag: keep_flag || has_flag(es, "keep"@),
        }),
        names_unique(bs + spec_bindings(es)),
    decreases es.len(),
{
    reveal_strlit("option");
    reveal_strlit("keep");
    assert("option"@.len() == 6);
    assert("keep"@.len() == 4);
    if es.len() == 0 {
        assert(bs + spec_bindings(es) =~= bs);
        assert(!has_flag(es, "option"@));
        assert(!has_flag(es, "keep"@));
    } else {
        let rest = es.skip(1);
        assert forall|f: Seq<char>| has_flag(rest, f) implies has_flag(es, f) by {
            let k = choose|k: int|
                0 <= k < rest.len() && ((#[trigger] rest[k]) matches Entry::Flag { name }
                    && name@ == f);
            assert(es[k + 1] == rest[k]);
        }
        match es[0] {
            Entry::Binding { name, range } => {
                assert(!contains_name(bs, name@));
                assert(names_unique(bs.push((name@, range)))) by {
                    assert forall|i: int, j: int|
                        0 <= i < j < bs.push((name@, range)).len() implies bs.push(
                        (name@, range),
                    )[i].0 != bs.push((name@, range))[j].0 by {
                        if j < bs.len() {
                        } else {
                            assert(bs.push((name@, range))[i] == bs[i]);
                            if bs[i].0 == name@ {
                                assert(contains_name(bs, name@));
                            }
                        }
                    }
                }
                lemma_scan_done(rest, bs.push((name@, range)), option_flag, keep_flag);
                assert(bs.push((name@, range)) + spec_bindings(rest) =~= bs + spec_bindings(es));
                assert(!has_flag(es, "option"@) <==> !has_flag(rest, "option"@)) by {
                    if has_flag(es, "option"@) {
                        let k = choose|k: int|
                            0 <= k < es.len() && ((#[trigger] es[k]) matches Entry::Flag {
                                name,
                            } && name@ == "option"@);
                        assert(rest[k - 1] == es[k]);
                    }
                }
                assert(!has_flag(es, "keep"@) <==> !has_flag(rest, "keep"@)) by {
                    if has_flag(es, "keep"@) {
                        let k = choose|k: int|
                            0 <= k < es.len() && ((#[trigger] es[k]) matches Entry::Flag {
                                name,
                            } && name@ == "keep"@);
                        assert(rest[k - 1] == es[k]);
                    }
                }
            },
            Entry::Flag { name } => {
                if name@ == "option"@ {
                    lemma_scan_done(rest, bs, true, keep_flag);
                    assert(has_flag(es, "option"@));
                    assert(!has_flag(es, "keep"@) <==> !has_flag(rest, "keep"@)) by {
                        if has_flag(es, "keep"@) {
                            let k = choose|k: int|
                                0 <= k < es.len() && ((#[trigger] es[k]) matches Entry::Flag {
                                    name,
                                } && name@ == "keep"@);
                            assert(k != 0);
                            assert(rest[k - 1] == es[k]);
                        }
                    }
                } else {
                    assert(name@ == "keep"@);
                    lemma_scan_done(rest, bs, option_flag, true);
                    assert(has_flag(es, "keep"@));
                    assert(!has_flag(es, "option"@) <==> !has_flag(rest, "option"@)) by {
                        if has_flag(es, "option"@) {
                            let k = choose|k: int|
                                0 <= k < es.len() && ((#[trigger] es[k]) matches Entry::Flag {
                                    name,
                                } && name@ == "option"@);
                            assert(k != 0);
                            assert(rest[k - 1] == es[k]);
                        }
                    }
                }
            },
        }
    }
}

/// A configuration the parser accepts holds exactly the payload's
/// bindings, in order and with no name bound twice, and its mode is
/// the one the payload's flags select.
pub proof fn lemma_parsed_config_exact<R>(es: Seq<Entry<R>>, c: Config<R>)
    requires
        parse_scan(es, Seq::empty(), false, false) matches ParseScan::Done {
            bindings,
            option_flag,
            keep_flag,
        } && bindings_view(c.bindings@) == bindings && !(option_flag && keep_flag) && c.mode == (
        if option_flag {
            Mode::Optional
        } else if keep_flag {
            Mode::Keep
        } else {
            Mode::Basic
        }),
    ensures
        bindings_view(c.bindings@) == spec_bindings(es),
        names_unique(bindings_view(c.bindings@)),
        c.mode == (if has_flag(es, "option"@) {
            Mode::Optional
        } else if has_flag(es, "keep"@) {
            Mode::Keep
        } else {
            Mode::Basic
        }),
{
    lemma_scan_done(es, Seq::empty(), false, false);
    assert(Seq::empty() + spec_bindings(es) =~= spec_bindings(es));
}

/// String equality against a literal flag name.
fn string_eq_lit(s: &String, lit: &str) -> (b: bool)
    ensures
        b == (s@ == lit@),
{
    let owned: String = lit.to_owned();
    *s == owned
}

/// The index of the first binding with the given name, if any.
pub fn find_binding<R>(bindings: &Vec<RangeBinding<R>>, name: &String) -> (r: Option<usize>)
    ensures
        r matches Some(i) ==> i < bindings@.len() && bindings@[i as int].name@ == name@ && (
        forall|k: int| 0 <= k < i ==> bindings@[k].name@ != name@),
        r is None ==> forall|k: int| 0 <= k < bindings@.len() ==> bindings@[k].name@ != name@,
{
    let n = bindings.len();
    let mut j: usize = 0;
    while j < n
        invariant
            j <= n,
            n == bindings@.len(),
            forall|k: int| 0 <= k < j ==> bindings@[k].name@ != name@,
        decreases n - j,
    {
        if bindings[j].name == *name {
            return Some(j);
        }
        j += 1;
    }
    None
}

/// Parses the attribute payload. Succeeds exactly when no name is bound
/// twice, every bare flag is recognized, and at most one of the two
/// mode flags appears; the result then holds every binding in payload
/// order and the selected mode. Fails with the first offending key
/// otherwise.
pub fn parse_config<R: Copy>(entries: &Vec<Entry<R>>) -> (r: Result<Config<R>, ConfigError>)
    ensures
        ({
            match parse_scan(entries@, Seq::empty(), false, false) {
                ParseScan::Done { bindings, option_flag, keep_flag } => {
                    if option_flag && keep_flag {
                        r matches Err(e) && e is ModeConflict
                    } else {
                        r matches Ok(c) && bindings_view(c.bindings@) == bindings && c.mode == (
                        if option_flag {
                            Mode::Optional
                        } else if keep_flag {
                            Mode::Keep
                        } else {
                            Mode::Basic
                        })
                    }
                },
                ParseScan::Duplicate { name } => r matches Err(e) && (e matches
                    ConfigError::DuplicateKey { name: nm } && nm@ == name),
                ParseScan::Unknown { name } => r matches Err(e) && (e matches
                    ConfigError::UnknownFlag { name: nm } && nm@ == name),
            }
        }),
{
    let ghost es = entries@;
    let n = entries.len();
    let mut bindings: Vec<RangeBinding<R>> = Vec::new();
    let mut saw_option = false;
    let mut saw_keep = false;
    let mut j: usize = 0;
    proof {
        assert(es.skip(0) =~= es);
        assert(bindings_view(bindings@) =~= Seq::<(Seq<char>, R)>::empty());
    }
    while j < n
        invariant
            j <= n,
            n == es.len(),
            es == entries@,
            parse_scan(es, Seq::empty(), false, false) == parse_scan(
                es.skip(j as int),
                bindings_view(bindings@),
                saw_option,
                saw_keep,
            ),
        decreases n - j,
    {
        let ghost jj = j as int;
        proof {
            assert(es.skip(jj)[0] == es[jj]);
            assert(es.skip(jj).skip(1) =~= es.skip(jj + 1));
        }
        match &entries[j] {
            Entry::Binding { name, range } => {
                match find_binding(&bindings, name) {
                    Some(i) => {
                        proof {
                            assert(bindings_view(bindings@)[i as int].0 == name@);
                            assert(contains_name(bindings_view(bindings@), name@));
                        }
                        return Err(ConfigError::DuplicateKey { name: name.clone() });
                    },
                    None => {
                        proof {
                            assert forall|k: int|
                                0 <= k < bindings_view(bindings@).len() implies bindings_view(
                                bindings@,
                            )[k].0 != name@ by {
                                assert(bindings@[k].name@ != name@);
                            }
                            assert(!contains_name(bindings_view(bindings@), name@));
                        }
                        let nm = name.clone();
                        let rg = *range;
                        let ghost prev = bindings@;
                        bindings.push(RangeBinding { name: nm, range: rg });
                        proof {
                            assert(bindings_view(bindings@) =~= bindings_view(prev).push(
                                (name@, rg),
                            ));
                        }
                    },
                }
            },
            Entry::Flag { name } => {
                if string_eq_lit(name, "option") {
                    saw_option = true;
                } else if string_eq_lit(name, "keep") {
                    saw_keep = true;
                } else {
                    return Err(ConfigError::UnknownFlag { name: name.clone() });
                }
            },
        }
        j += 1;
    }
    proof {
        assert(es.skip(n as int) =~= Seq::<Entry<R>>::empty());
    }
    if saw_option && saw_keep {
        return Err(ConfigError::ModeConflict);
    }
    let mode = if saw_option {
        Mode::Optional
    } else if saw_keep {
        Mode::Keep
    } else {
        Mode::Basic
    };
    Ok(Config { bindings, mode })
}

} // verus!
