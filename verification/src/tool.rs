//! What an external tool printed, boiled down to a line.
use vstd::prelude::*;

use crate::text::{join, join_chars, lines, lines_of, string_of, trim, trim_chars};

verus! {

/// How a run of an external tool ended.
#[derive(Debug)]
pub struct Outcome {
    pub code: i32,
    pub stdout: String,
    pub stderr: String,
}

/// The trimmed non-empty lines of the tool's output, standard output first.
pub open spec fn output_lines(out: Outcome) -> Seq<Seq<char>> {
    (lines(out.stdout@) + lines(out.stderr@)).map_values(|l: Seq<char>| trim(l)).filter(
        |l: Seq<char>| l.len() > 0,
    )
}

/// The last two of those lines joined with ` · `.
pub open spec fn summary_spec(out: Outcome) -> Seq<char> {
    let ls = output_lines(out);
    join(if ls.len() > 2 { ls.skip(ls.len() - 2) } else { ls }, " · "@)
}

/// The last two non-empty lines of what the tool printed, joined with ` · `.
pub fn summary(out: &Outcome) -> (res: String)
    ensures
        res@ == summary_spec(*out),
{
    let mut all = lines_of(out.stdout.as_str());
    let errs = lines_of(out.stderr.as_str());
    let ghost a0 = all@.map_values(|p: Vec<char>| p@);
    let mut k: usize = 0;
    while k < errs.len()
        invariant
            k <= errs.len(),
            all@.map_values(|p: Vec<char>| p@) == a0 + errs@.map_values(|p: Vec<char>| p@).take(
                k as int,
            ),
        decreases errs.len() - k,
    {
        let ghost before = all@.map_values(|p: Vec<char>| p@);
        all.push(errs[k].clone());
        assert(all@.map_values(|p: Vec<char>| p@) =~= before.push(errs@[k as int]@));
        assert(errs@.map_values(|p: Vec<char>| p@).take(k + 1) =~= errs@.map_values(
            |p: Vec<char>| p@,
        ).take(k as int).push(errs@[k as int]@));
        k += 1;
    }
    assert(errs@.map_values(|p: Vec<char>| p@).take(errs.len() as int) =~= errs@.map_values(
        |p: Vec<char>| p@,
    ));
    let ghost av = all@.map_values(|p: Vec<char>| p@);
    assert(av == lines(out.stdout@) + lines(out.stderr@));
    let ghost tv = av.map_values(|l: Seq<char>| trim(l));
    let mut kept: Vec<Vec<char>> = Vec::new();
    let mut i: usize = 0;
    while i < all.len()
        invariant
            i <= all.len(),
            av == all@.map_values(|p: Vec<char>| p@),
            tv == av.map_values(|l: Seq<char>| trim(l)),
            kept@.map_values(|p: Vec<char>| p@) == tv.take(i as int).filter(
                |l: Seq<char>| l.len() > 0,
            ),
        decreases all.len() - i,
    {
        let t = trim_chars(&all[i]);
        assert(tv.take(i + 1).drop_last() =~= tv.take(i as int));
        assert(tv.take(i + 1).last() == t@);
        reveal_with_fuel(Seq::filter, 1);
        let ghost before = kept@.map_values(|p: Vec<char>| p@);
        if t.len() > 0 {
            kept.push(t);
            assert(kept@.map_values(|p: Vec<char>| p@) =~= before.push(kept@[kept@.len() - 1]@));
        }
        i += 1;
    }
    assert(tv.take(all.len() as int) =~= tv);
    let ghost kv = kept@.map_values(|p: Vec<char>| p@);
    let n = kept.len();
    let mut last: Vec<Vec<char>> = Vec::new();
    let start: usize = if n > 2 {
        n - 2
    } else {
        0
    };
    let mut j: usize = start;
    while j < n
        invariant
            start <= j <= n,
            n == kept.len(),
            kv == kept@.map_values(|p: Vec<char>| p@),
            last@.map_values(|p: Vec<char>| p@) == kv.subrange(start as int, j as int),
        decreases n - j,
    {
        let ghost before = last@.map_values(|p: Vec<char>| p@);
        last.push(kept[j].clone());
        assert(last@.map_values(|p: Vec<char>| p@) =~= before.push(kv[j as int]));
        assert(kv.subrange(start as int, j + 1) =~= kv.subrange(start as int, j as int).push(
            kv[j as int],
        ));
        j += 1;
    }
    assert(kv.subrange(start as int, n as int) =~= if kv.len() > 2 {
        kv.skip(kv.len() - 2)
    } else {
        kv
    });
    string_of(&join_chars(&last, " · "))
}

} // verus!
