//! Small shared helpers: counting distinct values, building the `--Format`
//! argument for the scheduler commands, and rendering memory sizes.

use vstd::prelude::*;

use crate::text::{spec_digits, u64_to_string};

verus! {

broadcast use {vstd::seq_lib::seq_to_set_is_finite, vstd::set::group_set_axioms};

/// Number of distinct strings in the list.
pub fn unique_values(values: &Vec<String>) -> (r: usize)
    ensures
        r == values@.map_values(|s: String| s@).to_set().len(),
{
    let ghost vs = values@.map_values(|s: String| s@);
    let mut count: usize = 0;
    let mut i: usize = 0;
    proof {
        assert(vs.take(0) =~= Seq::<Seq<char>>::empty());
        assert(vs.take(0).to_set() =~= Set::<Seq<char>>::empty());
    }
    while i < values.len()
        invariant
            i <= values@.len(),
            vs == values@.map_values(|s: String| s@),
            count <= i,
            count == vs.take(i as int).to_set().len(),
        decreases values@.len() - i,
    {
        let mut seen = false;
        let mut j: usize = 0;
        while j < i
            invariant
                j <= i < values@.len(),
                vs == values@.map_values(|s: String| s@),
                seen == (exists|k: int| 0 <= k < j && vs[k] == vs[i as int]),
            decreases i - j,
        {
            proof {
                assert(vs[j as int] == values@[j as int]@);
                assert(vs[i as int] == values@[i as int]@);
            }
            if crate::text::str_eq(values[j].as_str(), values[i].as_str()) {
                seen = true;
                assert(vs[j as int] == vs[i as int]);
            }
            j += 1;
        }
        proof {
            assert(vs.take(i + 1) =~= vs.take(i as int).push(vs[i as int]));
            vs.take(i as int).lemma_push_to_set_commute(vs[i as int]);
            if seen {
                assert(vs.take(i as int).to_set().contains(vs[i as int])) by {
                    let k = choose|k: int| 0 <= k < i && vs[k] == vs[i as int];
                    assert(vs.take(i as int)[k] == vs[i as int]);
                }
                assert(vs.take(i as int).to_set().insert(vs[i as int]) =~= vs.take(
                    i as int,
                ).to_set());
            } else {
                assert(!vs.take(i as int).to_set().contains(vs[i as int])) by {
                    if vs.take(i as int).contains(vs[i as int]) {
                        let k = choose|k: int|
                            0 <= k < i && vs.take(i as int)[k] == vs[i as int];
                        assert(vs[k] == vs[i as int]);
                    }
                }
            }
        }
        if !seen {
            count += 1;
        }
        i += 1;
    }
    proof {
        assert(vs.take(values@.len() as int) =~= vs);
    }
    count
}

/// One field of the format argument: the field name with an unlimited
/// width.
pub open spec fn spec_format_field(f: Seq<char>) -> Seq<char> {
    f + ":0"@
}

/// The remaining fields, each preceded by the separator.
pub open spec fn spec_format_rest(fs: Seq<Seq<char>>) -> Seq<char>
    decreases fs.len(),
{
    if fs.len() == 0 {
        Seq::empty()
    } else {
        "|,"@ + spec_format_field(fs[0]) + spec_format_rest(fs.drop_first())
    }
}

/// The whole format argument: fields suffixed with `:0` (no width limit),
/// joined by `|,` so that values are pipe-delimited on the wire.
pub open spec fn spec_format_string(fs: Seq<Seq<char>>) -> Seq<char> {
    if fs.len() == 0 {
        Seq::empty()
    } else {
        spec_format_field(fs[0]) + spec_format_rest(fs.drop_first())
    }
}

fn format_rest(fields: &Vec<String>, i: usize) -> (r: String)
    requires
        i <= fields@.len(),
    ensures
        r@ == spec_format_rest(fields@.map_values(|t: String| t@).skip(i as int)),
    decreases fields@.len() - i,
{
    let ghost fs = fields@.map_values(|t: String| t@);
    if i == fields.len() {
        proof {
            assert(fs.skip(i as int) =~= Seq::<Seq<char>>::empty());
        }
        String::new()
    } else {
        let mut s = String::from_str("|,");
        s.append(fields[i].as_str());
        s.append(":0");
        let rest = format_rest(fields, i + 1);
        s.append(rest.as_str());
        proof {
            assert(fs.skip(i as int)[0] == fs[i as int]);
            assert(fs[i as int] == fields@[i as int]@);
            assert(fs.skip(i as int).drop_first() =~= fs.skip(i + 1));
            assert(s@ =~= spec_format_rest(fs.skip(i as int)));
        }
        s
    }
}

/// Builds the `--Format` argument from the ordered field names.
pub fn format_string(fields: &Vec<String>) -> (r: String)
    ensures
        r@ == spec_format_string(fields@.map_values(|t: String| t@)),
{
    let ghost fs = fields@.map_values(|t: String| t@);
    if fields.len() == 0 {
        String::new()
    } else {
        let mut s = String::from_str(fields[0].as_str());
        s.append(":0");
        let rest = format_rest(fields, 1);
        s.append(rest.as_str());
        proof {
            assert(fs[0] == fields@[0]@);
            assert(fs.drop_first() =~= fs.skip(1));
            assert(s@ =~= spec_format_string(fs));
        }
        s
    }
}

/// Tenths after rounding `mb / unit` half-up to one decimal place.
pub open spec fn spec_tenths(mb: int, unit: int) -> int {
    (mb * 20 + unit) / (2 * unit)
}

/// A memory size as displayed: whole megabytes below a gigabyte, otherwise
/// gigabytes or terabytes with one decimal place.
pub open spec fn spec_mb_text(mb: int) -> Seq<char> {
    if mb < 1024 {
        spec_digits(mb) + seq!['M']
    } else if mb < 1048576 {
        let t = spec_tenths(mb, 1024);
        spec_digits(t / 10) + seq!['.'] + spec_digits(t % 10) + seq!['G']
    } else {
        let t = spec_tenths(mb, 1048576);
        spec_digits(t / 10) + seq!['.'] + spec_digits(t % 10) + seq!['T']
    }
}

/// Renders a memory size for display.
pub fn mb_to_string(mb: u64) -> (r: String)
    ensures
        r@ == spec_mb_text(mb as int),
{
    if mb < 1024 {
        let mut s = u64_to_string(mb);
        s.append("M");
        proof {
            reveal_strlit("M");
            assert(s@ =~= spec_mb_text(mb as int));
        }
        s
    } else {
        let unit: u64 = if mb < 1048576 {
            1024
        } else {
            1048576
        };
        let tenths: u64 = (((mb as u128) * 20 + (unit as u128)) / (2 * (unit as u128))) as u64;
        proof {
            assert((mb as u128) * 20 + (unit as u128) <= u128::MAX) by (nonlinear_arith)
                requires
                    mb <= u64::MAX,
                    unit <= 1048576,
            ;
            assert(((mb as int) * 20 + (unit as int)) / (2 * (unit as int)) <= (mb as int))
                by (nonlinear_arith)
                requires
                    1024 <= unit as int,
                    1024 <= mb as int,
            ;
            vstd::arithmetic::div_mod::lemma_div_pos_is_pos(
                (mb as int) * 20 + (unit as int),
                2 * (unit as int),
            );
            assert((mb as int) * 20 + (unit as int) >= 0) by (nonlinear_arith)
                requires
                    mb as int >= 0,
                    unit as int >= 0,
            ;
            assert(tenths == spec_tenths(mb as int, unit as int));
        }
        let mut s = u64_to_string(tenths / 10);
        s.append(".");
        let frac = u64_to_string(tenths % 10);
        s.append(frac.as_str());
        if mb < 1048576 {
            s.append("G");
        } else {
            s.append("T");
        }
        proof {
            reveal_strlit(".");
            reveal_strlit("G");
            reveal_strlit("T");
            assert(s@ =~= spec_mb_text(mb as int));
        }
        s
    }
}

} // verus!
