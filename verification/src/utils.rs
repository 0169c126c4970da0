//! The atom-selection syntax of the configuration surface: a
//! comma-separated list of atom ids and dash-separated inclusive id
//! ranges, with spaces ignored, as in "1-3,5".

use vstd::prelude::*;
use vstd::string::StrSliceExecFns;
use vstd::string::StringExecFns;

use crate::error::GenError;
use crate::itp::first_index_of_char;
use crate::itp::lemma_first_index_of_char_props;
use crate::mol2::usize_token;
use crate::text::spec_trim;
use crate::text::spec_val;
use crate::text::trim;
use crate::text::parse_usize;

verus! {

/// The selection text with every space removed.
pub open spec fn remove_spaces(s: Seq<char>) -> Seq<char>
    decreases s.len(),
{
    if s.len() == 0 {
        Seq::empty()
    } else if s[0] == ' ' {
        remove_spaces(s.drop_first())
    } else {
        seq![s[0]] + remove_spaces(s.drop_first())
    }
}

proof fn lemma_remove_spaces_push(s: Seq<char>, c: char)
    ensures
        remove_spaces(s.push(c)) == remove_spaces(s) + (if c == ' ' {
            Seq::<char>::empty()
        } else {
            seq![c]
        }),
    decreases s.len(),
{
    if s.len() == 0 {
        assert(s.push(c).drop_first() =~= Seq::<char>::empty());
        assert(s.push(c)[0] == c);
        assert(remove_spaces(Seq::<char>::empty()) =~= Seq::<char>::empty());
        assert(remove_spaces(s) =~= Seq::<char>::empty());
        if c == ' ' {
            assert(remove_spaces(s.push(c)) =~= remove_spaces(s) + Seq::<char>::empty());
        } else {
            assert(remove_spaces(s.push(c)) =~= remove_spaces(s) + seq![c]);
        }
    } else {
        assert(s.push(c).drop_first() =~= s.drop_first().push(c));
        lemma_remove_spaces_push(s.drop_first(), c);
        if c == ' ' {
            assert(remove_spaces(s.push(c)) =~= remove_spaces(s) + Seq::<char>::empty());
        } else {
            assert(remove_spaces(s.push(c)) =~= remove_spaces(s) + seq![c]);
        }
    }
}

/// The ids `l..=u`, in order; empty when `l > u`.
pub open spec fn spec_range(l: int, u: int) -> Seq<int> {
    Seq::new(
        if u >= l {
            (u - l + 1) as nat
        } else {
            0
        },
        |k: int| l + k,
    )
}

/// The ids one segment selects: a single id, or a dash-separated
/// inclusive range whose bounds are read from the first two
/// dash-separated pieces.
pub open spec fn spec_segment(seg: Seq<char>) -> Option<Seq<int>> {
    let di = first_index_of_char(seg, '-');
    if di < 0 || di >= seg.len() {
        if usize_token(seg) {
            Some(seq![spec_val(seg) as int])
        } else {
            None
        }
    } else {
        let l_tok = seg.take(di);
        let rest = seg.skip(di + 1);
        let di2 = first_index_of_char(rest, '-');
        let u_tok = if di2 < 0 || di2 >= rest.len() {
            rest
        } else {
            rest.take(di2)
        };
        if usize_token(l_tok) && usize_token(u_tok) {
            Some(spec_range(spec_val(l_tok) as int, spec_val(u_tok) as int))
        } else {
            None
        }
    }
}

/// The ids the cleaned selection text selects, segment by segment; a
/// segment that does not parse spoils the whole selection.
pub open spec fn spec_atlist_scan(s: Seq<char>) -> Option<Seq<int>>
    decreases s.len(),
{
    let ci = first_index_of_char(s, ',');
    if ci < 0 || ci >= s.len() {
        spec_segment(s)
    } else {
        match spec_segment(s.take(ci)) {
            None => None,
            Some(vals) => match spec_atlist_scan(s.skip(ci + 1)) {
                None => None,
                Some(rest) => Some(vals + rest),
            },
        }
    }
}

/// Finds the first occurrence of `c` at or after position `i`.
fn find_char_from(s: &str, i: usize, n: usize, c: char) -> (r: Option<usize>)
    requires
        n == s@.len(),
        i <= n,
    ensures
        match r {
            Some(k) => i <= k < n && s@[k as int] == c && forall|m: int|
                i <= m < k ==> #[trigger] s@[m] != c,
            None => forall|m: int| i <= m < n ==> #[trigger] s@[m] != c,
        },
    decreases n - i,
{
    if i == n {
        return None;
    }
    if s.get_char(i) == c {
        Some(i)
    } else {
        find_char_from(s, i + 1, n, c)
    }
}

/// Reads one segment and appends the ids it selects.
fn push_segment(seg: &str, out: &mut Vec<usize>) -> (r: Result<(), GenError>)
    ensures
        match r {
            Ok(_) => spec_segment(seg@) is Some && final(out)@.map_values(|u: usize| u as int)
                == old(out)@.map_values(|u: usize| u as int) + spec_segment(seg@).unwrap(),
            Err(e) => spec_segment(seg@) is None && e == GenError::ConfigError && *final(out)
                == *old(out),
        },
{
    let n = seg.unicode_len();
    proof {
        lemma_first_index_of_char_props(seg@, '-');
    }
    match find_char_from(seg, 0, n, '-') {
        None => {
            proof {
                assert(first_index_of_char(seg@, '-') == -1);
            }
            match parse_usize(seg) {
                Some(v) => {
                    let ghost prev = out@.map_values(|u: usize| u as int);
                    out.push(v);
                    proof {
                        assert(out@.map_values(|u: usize| u as int) =~= prev + seq![v as int]);
                    }
                    Ok(())
                },
                None => Err(GenError::ConfigError),
            }
        },
        Some(di) => {
            proof {
                assert(first_index_of_char(seg@, '-') == di);
            }
            let l_tok = seg.substring_char(0, di);
            proof {
                assert(l_tok@ =~= seg@.take(di as int));
            }
            let ghost grest = seg@.skip(di as int + 1);
            proof {
                lemma_first_index_of_char_props(grest, '-');
            }
            let u_end = match find_char_from(seg, di + 1, n, '-') {
                Some(d2) => {
                    proof {
                        assert(grest[d2 - di - 1] == '-');
                        assert(forall|m: int|
                            0 <= m < d2 - di - 1 ==> #[trigger] grest[m] != '-');
                        assert(first_index_of_char(grest, '-') == d2 - di - 1);
                        assert(grest.take(d2 - di - 1) =~= seg@.subrange(
                            di as int + 1,
                            d2 as int,
                        ));
                    }
                    d2
                },
                None => {
                    proof {
                        assert(forall|m: int|
                            0 <= m < grest.len() ==> #[trigger] grest[m] != '-');
                        assert(first_index_of_char(grest, '-') == -1);
                        assert(grest =~= seg@.subrange(di as int + 1, n as int));
                    }
                    n
                },
            };
            let u_tok = seg.substring_char(di + 1, u_end);
            let l = match parse_usize(l_tok) {
                Some(v) => v,
                None => {
                    return Err(GenError::ConfigError);
                },
            };
            let u = match parse_usize(u_tok) {
                Some(v) => v,
                None => {
                    return Err(GenError::ConfigError);
                },
            };
            let ghost prev = out@.map_values(|u: usize| u as int);
            let ghost rng = spec_range(l as int, u as int);
            if l <= u {
                let mut v: usize = l;
                while v < u
                    invariant
                        l <= v <= u,
                        out@.map_values(|x: usize| x as int) =~= prev + rng.take(v - l),
                        rng == spec_range(l as int, u as int),
                        prev == old(out)@.map_values(|x: usize| x as int),
                    decreases u - v,
                {
                    proof {
                        assert(rng.take(v - l).push(rng[v - l]) =~= rng.take(v - l + 1));
                        assert(rng[v - l] == v as int);
                    }
                    out.push(v);
                    proof {
                        assert(out@.map_values(|x: usize| x as int) =~= (prev + rng.take(v - l))
                            + seq![v as int]);
                        assert((prev + rng.take(v - l)) + seq![v as int] =~= prev + rng.take(
                            v - l + 1,
                        ));
                    }
                    v = v + 1;
                }
                proof {
                    assert(rng.take(u - l).push(rng[u - l]) =~= rng.take(u - l + 1));
                    assert(rng[u - l] == u as int);
                }
                out.push(u);
                proof {
                    assert(out@.map_values(|x: usize| x as int) =~= (prev + rng.take(u - l))
                        + seq![u as int]);
                    assert((prev + rng.take(u - l)) + seq![u as int] =~= prev + rng.take(
                        u - l + 1,
                    ));
                    assert(rng.take(u - l + 1) =~= rng);
                }
            } else {
                proof {
                    assert(rng =~= Seq::<int>::empty());
                    assert(prev + rng =~= prev);
                }
            }
            Ok(())
        },
    }
}

/// Reads the segments from position `pos` on.
fn parse_segments(cleaned: &str, pos: usize, n: usize, out: &mut Vec<usize>) -> (r: Result<
    (),
    GenError,
>)
    requires
        n == cleaned@.len(),
        pos <= n,
    ensures
        match r {
            Ok(_) => spec_atlist_scan(cleaned@.skip(pos as int)) is Some && final(out)@.map_values(
                |u: usize| u as int,
            ) == old(out)@.map_values(|u: usize| u as int) + spec_atlist_scan(
                cleaned@.skip(pos as int),
            ).unwrap(),
            Err(e) => spec_atlist_scan(cleaned@.skip(pos as int)) is None && e
                == GenError::ConfigError,
        },
    decreases n - pos,
{
    let ghost tail = cleaned@.skip(pos as int);
    match find_char_from(cleaned, pos, n, ',') {
        None => {
            proof {
                assert(forall|m: int| 0 <= m < tail.len() ==> #[trigger] tail[m] != ',');
                lemma_first_index_of_char_props(tail, ',');
                if first_index_of_char(tail, ',') != -1 {
                    assert(tail[first_index_of_char(tail, ',')] == ',');
                }
                assert(first_index_of_char(tail, ',') == -1);
            }
            let seg = cleaned.substring_char(pos, n);
            proof {
                assert(seg@ =~= tail);
            }
            push_segment(seg, out)
        },
        Some(ci) => {
            proof {
                assert(tail[ci - pos] == ',');
                assert(forall|m: int| 0 <= m < ci - pos ==> #[trigger] tail[m] != ',');
                lemma_first_index_of_char_props(tail, ',');
                assert(first_index_of_char(tail, ',') == ci - pos);
                assert(tail.take(ci - pos) =~= cleaned@.subrange(pos as int, ci as int));
                assert(tail.skip(ci - pos + 1) =~= cleaned@.skip(ci as int + 1));
            }
            let seg = cleaned.substring_char(pos, ci);
            match push_segment(seg, out) {
                Ok(_) => parse_segments(cleaned, ci + 1, n, out),
                Err(e) => Err(e),
            }
        },
    }
}

/// Reads an atom selection such as "1-3,5" into the list of selected
/// atom ids, in order; spaces are ignored and a blank selection selects
/// nothing.
pub fn atrange2atlist(atom_selection_str: &str) -> (r: Result<Vec<usize>, GenError>)
    ensures
        spec_trim(atom_selection_str@).len() == 0 ==> (r matches Ok(v) && v@.len() == 0),
        spec_trim(atom_selection_str@).len() != 0 ==> (match spec_atlist_scan(
            remove_spaces(atom_selection_str@),
        ) {
            Some(vals) => (r matches Ok(v) && v@.map_values(|u: usize| u as int) == vals),
            None => r == Err::<Vec<usize>, GenError>(GenError::ConfigError),
        }),
{
    let t = trim(atom_selection_str);
    if t.unicode_len() == 0 {
        return Ok(Vec::new());
    }
    let n = atom_selection_str.unicode_len();
    let mut cleaned = String::new();
    let mut i: usize = 0;
    proof {
        assert(remove_spaces(atom_selection_str@.take(0)) =~= Seq::<char>::empty());
    }
    while i < n
        invariant
            0 <= i <= n,
            n == atom_selection_str@.len(),
            cleaned@ == remove_spaces(atom_selection_str@.take(i as int)),
        decreases n - i,
    {
        let c = atom_selection_str.get_char(i);
        proof {
            assert(atom_selection_str@.take(i as int).push(atom_selection_str@[i as int])
                =~= atom_selection_str@.take(i as int + 1));
            lemma_remove_spaces_push(
                atom_selection_str@.take(i as int),
                atom_selection_str@[i as int],
            );
        }
        if c != ' ' {
            let piece = atom_selection_str.substring_char(i, i + 1);
            proof {
                assert(piece@ =~= seq![atom_selection_str@[i as int]]);
            }
            cleaned.append(piece);
        }
        i = i + 1;
    }
    proof {
        assert(atom_selection_str@.take(n as int) =~= atom_selection_str@);
    }
    let mut out: Vec<usize> = Vec::new();
    let cn = cleaned.as_str().unicode_len();
    proof {
        assert(cleaned@.skip(0) =~= cleaned@);
        assert(out@.map_values(|u: usize| u as int) =~= Seq::<int>::empty());
    }
    match parse_segments(cleaned.as_str(), 0, cn, &mut out) {
        Ok(_) => {
            proof {
                assert(Seq::<int>::empty() + spec_atlist_scan(cleaned@).unwrap()
                    =~= spec_atlist_scan(cleaned@).unwrap());
            }
            Ok(out)
        },
        Err(e) => Err(e),
    }
}

} // verus!
