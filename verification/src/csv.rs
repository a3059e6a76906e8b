//! Splitting raw CSV bytes into records and fields: records are separated by
//! line feeds (a carriage return just before one is dropped, and a trailing
//! empty record is dropped), fields by commas. No quoting: the telemetry
//! tables this pipeline reads are machine-written without quoted fields.

use vstd::prelude::*;
use vstd::slice::slice_subrange;

verus! {

/// The views of a sequence of byte vectors.
pub open spec fn byte_views(v: Seq<Vec<u8>>) -> Seq<Seq<u8>> {
    v.map_values(|x: Vec<u8>| x@)
}

/// The views of a sequence of records of byte vectors.
pub open spec fn record_views(v: Seq<Vec<Vec<u8>>>) -> Seq<Seq<Seq<u8>>> {
    v.map_values(|x: Vec<Vec<u8>>| byte_views(x@))
}

/// Splitting at every occurrence of `sep`: one part more than there are
/// separators, in order.
pub open spec fn spec_split(s: Seq<u8>, sep: u8) -> Seq<Seq<u8>>
    decreases s.len(),
{
    if s.len() == 0 {
        seq![Seq::<u8>::empty()]
    } else if s.last() == sep {
        spec_split(s.drop_last(), sep).push(Seq::<u8>::empty())
    } else {
        let r = spec_split(s.drop_last(), sep);
        r.update(r.len() - 1, r.last().push(s.last()))
    }
}

/// Splits `s` at every occurrence of `sep`.
pub fn split_bytes(s: &[u8], sep: u8) -> (r: Vec<Vec<u8>>)
    ensures
        byte_views(r@) == spec_split(s@, sep),
        r@.len() >= 1,
{
    let mut done: Vec<Vec<u8>> = Vec::new();
    let mut cur: Vec<u8> = Vec::new();
    let mut i: usize = 0;
    proof {
        assert(s@.take(0) =~= Seq::<u8>::empty());
        assert(byte_views(done@).push(cur@) =~~= spec_split(s@.take(0), sep));
    }
    while i < s.len()
        invariant
            i <= s@.len(),
            byte_views(done@).push(cur@) == spec_split(s@.take(i as int), sep),
        decreases s@.len() - i,
    {
        proof {
            assert(s@.take(i as int + 1).drop_last() =~= s@.take(i as int));
            assert(s@.take(i as int + 1).last() == s@[i as int]);
        }
        let ghost prev = spec_split(s@.take(i as int), sep);
        if s[i] == sep {
            done.push(cur);
            cur = Vec::new();
            proof {
                assert(byte_views(done@).push(cur@) =~~= prev.push(Seq::<u8>::empty()));
            }
        } else {
            let ghost old_cur = cur@;
            cur.push(s[i]);
            proof {
                assert(prev.last() == old_cur);
                assert(byte_views(done@).push(cur@) =~~= prev.update(
                    prev.len() - 1,
                    old_cur.push(s@[i as int]),
                ));
            }
        }
        i = i + 1;
    }
    proof {
        assert(s@.take(s@.len() as int) =~= s@);
    }
    done.push(cur);
    proof {
        assert(byte_views(done@) =~~= spec_split(s@, sep));
    }
    done
}

/// A record line with a trailing carriage return dropped.
pub open spec fn spec_strip_cr(line: Seq<u8>) -> Seq<u8> {
    if line.len() > 0 && line.last() == 13 {
        line.drop_last()
    } else {
        line
    }
}

/// The record lines of the input: split at line feeds, one trailing empty
/// record dropped, carriage returns before the line feeds dropped.
pub open spec fn spec_records(input: Seq<u8>) -> Seq<Seq<u8>> {
    let ls = spec_split(input, 10);
    let kept = if ls.len() > 1 && ls.last().len() == 0 {
        ls.drop_last()
    } else {
        ls
    };
    kept.map_values(|l: Seq<u8>| spec_strip_cr(l))
}

/// Every record of the input split into its fields.
pub open spec fn spec_parse_csv(input: Seq<u8>) -> Seq<Seq<Seq<u8>>> {
    spec_records(input).map_values(|l: Seq<u8>| spec_split(l, 44))
}

/// Splits raw CSV bytes into records of fields, as [`spec_parse_csv`]
/// describes.
pub fn parse_csv(input: &[u8]) -> (r: Vec<Vec<Vec<u8>>>)
    ensures
        record_views(r@) == spec_parse_csv(input@),
{
    let lines = split_bytes(input, 10);
    let n = lines.len();
    let use_n: usize = if n > 1 && lines[n - 1].len() == 0 {
        n - 1
    } else {
        n
    };
    let ghost ls = spec_split(input@, 10);
    let ghost kept = if ls.len() > 1 && ls.last().len() == 0 {
        ls.drop_last()
    } else {
        ls
    };
    proof {
        assert(byte_views(lines@)[n - 1] == lines@[n - 1]@);
        assert(kept.len() == use_n);
        assert(forall|k: int| 0 <= k < use_n ==> kept[k] == #[trigger] byte_views(lines@)[k]);
    }
    let mut out: Vec<Vec<Vec<u8>>> = Vec::new();
    let mut i: usize = 0;
    while i < use_n
        invariant
            i <= use_n,
            use_n <= lines@.len(),
            kept.len() == use_n,
            forall|k: int| 0 <= k < use_n ==> kept[k] == #[trigger] byte_views(lines@)[k],
            record_views(out@) == spec_parse_csv(input@).take(i as int),
            spec_parse_csv(input@) == kept.map_values(
                |l: Seq<u8>| spec_split(spec_strip_cr(l), 44),
            ),
        decreases use_n - i,
    {
        let l = &lines[i];
        let sl: &[u8] = if l.len() > 0 && l[l.len() - 1] == 13 {
            slice_subrange(l.as_slice(), 0, l.len() - 1)
        } else {
            l.as_slice()
        };
        proof {
            assert(lines@[i as int]@ == byte_views(lines@)[i as int]);
            if lines@[i as int]@.len() > 0 && lines@[i as int]@.last() == 13 {
                assert(lines@[i as int]@.subrange(0, lines@[i as int]@.len() - 1) =~= lines@[
                    i as int
                ]@.drop_last());
            }
            assert(sl@ == spec_strip_cr(kept[i as int]));
        }
        let fields = split_bytes(sl, 44);
        let ghost prev_out = out@;
        out.push(fields);
        proof {
            assert(spec_parse_csv(input@)[i as int] == spec_split(spec_strip_cr(kept[i as int]), 44));
            assert(byte_views(fields@) == spec_split(sl@, 44));
            assert(record_views(out@) =~~= record_views(prev_out).push(byte_views(fields@)));
            assert(spec_parse_csv(input@).take(i as int + 1) =~= spec_parse_csv(input@).take(
                i as int,
            ).push(spec_parse_csv(input@)[i as int]));
            assert(record_views(out@) =~~= spec_parse_csv(input@).take(i as int + 1));
        }
        i = i + 1;
    }
    proof {
        assert(spec_parse_csv(input@).take(use_n as int) =~~= spec_parse_csv(input@));
    }
    out
}

} // verus!
