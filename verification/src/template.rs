use vstd::prelude::*;

verus! {

/// The placeholder token that a layout template designates for the new
/// resource's name.
pub open spec fn placeholder() -> Seq<char> {
    seq!['$', 'n', 'a', 'm', 'e']
}

/// `t` with every occurrence of the placeholder replaced by `name`. The scan
/// runs left to right over non-overlapping occurrences; substituted text is
/// not scanned again.
pub open spec fn substituted(t: Seq<char>, name: Seq<char>) -> Seq<char>
    decreases t.len(),
{
    if t.len() >= 5 && t.take(5) == placeholder() {
        name + substituted(t.skip(5), name)
    } else if t.len() == 0 {
        t
    } else {
        seq![t[0]] + substituted(t.drop_first(), name)
    }
}

/// Instantiate a layout template: replace every occurrence of the placeholder
/// with the new resource's name.
#[verifier::loop_isolation(false)]
pub fn instantiate_template(template: &Vec<char>, name: &Vec<char>) -> (r: Vec<char>)
    ensures
        r@ == substituted(template@, name@),
{
    let n = template.len();
    let mut out: Vec<char> = Vec::new();
    let mut i: usize = 0;
    proof {
        assert(template@.skip(0) =~= template@);
    }
    while i < n
        invariant
            i <= n,
            out@ + substituted(template@.skip(i as int), name@) == substituted(template@, name@),
        decreases n - i,
    {
        let ghost rest = template@.skip(i as int);
        let ghost out_mark = out@;
        if n - i >= 5 && template[i] == '$' && template[i + 1] == 'n' && template[i + 2] == 'a'
            && template[i + 3] == 'm' && template[i + 4] == 'e' {
            let mut j: usize = 0;
            while j < name.len()
                invariant
                    j <= name@.len(),
                    out@ == out_mark + name@.take(j as int),
                decreases name@.len() - j,
            {
                out.push(name[j]);
                proof {
                    assert(out@ =~= out_mark + name@.take(j as int + 1));
                }
                j = j + 1;
            }
            proof {
                assert(name@.take(name@.len() as int) =~= name@);
                assert(rest.take(5) =~= placeholder());
                assert(substituted(rest, name@) == name@ + substituted(rest.skip(5), name@));
                assert(rest.skip(5) =~= template@.skip(i as int + 5));
                assert((out_mark + name@) + substituted(template@.skip(i as int + 5), name@)
                    =~= out_mark + (name@ + substituted(template@.skip(i as int + 5), name@)));
            }
            i = i + 5;
        } else {
            let c = template[i];
            out.push(c);
            proof {
                if rest.len() >= 5 && rest.take(5) == placeholder() {
                    assert(rest.take(5)[0] == '$' && rest.take(5)[1] == 'n' && rest.take(5)[2]
                        == 'a' && rest.take(5)[3] == 'm' && rest.take(5)[4] == 'e');
                    assert(template@[i as int] == '$' && template@[i as int + 1] == 'n'
                        && template@[i as int + 2] == 'a' && template@[i as int + 3] == 'm'
                        && template@[i as int + 4] == 'e');
                    assert(false);
                }
                assert(substituted(rest, name@) == seq![rest[0]] + substituted(
                    rest.drop_first(),
                    name@,
                ));
                assert(rest[0] == c);
                assert(rest.drop_first() =~= template@.skip(i as int + 1));
                assert(out@ =~= out_mark + seq![c]);
                assert((out_mark + seq![c]) + substituted(template@.skip(i as int + 1), name@)
                    =~= out_mark + (seq![c] + substituted(template@.skip(i as int + 1), name@)));
            }
            i = i + 1;
        }
    }
    proof {
        assert(template@.skip(n as int) =~= Seq::<char>::empty());
        assert(out@ + substituted(template@.skip(n as int), name@) =~= out@);
    }
    out
}

} // verus!
