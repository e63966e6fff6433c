use vstd::prelude::*;

verus! {

/// The suffix that marks a folder as a widget package.
pub open spec fn marker() -> Seq<char> {
    seq!['.', 'w', 'i', 'd', 'g', 'e', 't']
}

/// `s` holds the marker at position `i`.
pub open spec fn marker_at(s: Seq<char>, i: int) -> bool {
    0 <= i && i + 7 <= s.len() && s.subrange(i, i + 7) == marker()
}

/// `s` with every occurrence of the marker taken out, scanning from the left.
pub open spec fn strip_marker(s: Seq<char>) -> Seq<char>
    decreases s.len(),
{
    if s.len() == 0 {
        s
    } else if marker_at(s, 0) {
        strip_marker(s.subrange(7, s.len() as int))
    } else {
        seq![s[0]] + strip_marker(s.subrange(1, s.len() as int))
    }
}

/// A folder name of a widget package: one that ends with the marker.
pub open spec fn is_package_name(name: Seq<char>) -> bool {
    marker_at(name, name.len() - 7)
}

fn marker_char(j: usize) -> (c: char)
    requires
        j < 7,
    ensures
        c == marker()[j as int],
{
    if j == 0 {
        '.'
    } else if j == 1 {
        'w'
    } else if j == 2 {
        'i'
    } else if j == 3 {
        'd'
    } else if j == 4 {
        'g'
    } else if j == 5 {
        'e'
    } else {
        't'
    }
}

/// Whether the marker stands at position `i` of `s`, whose length is `n`.
fn has_marker_at(s: &str, n: usize, i: usize) -> (r: bool)
    requires
        n == s@.len(),
        i <= n,
    ensures
        r == marker_at(s@, i as int),
{
    if n - i < 7 {
        return false;
    }
    let mut j: usize = 0;
    while j < 7
        invariant
            i + 7 <= n == s@.len(),
            j <= 7,
            forall|k: int| 0 <= k < j ==> s@[i + k] == marker()[k],
        decreases 7 - j,
    {
        if s.get_char(i + j) != marker_char(j) {
            assert(s@.subrange(i as int, i + 7)[j as int] != marker()[j as int]);
            return false;
        }
        j = j + 1;
    }
    assert(s@.subrange(i as int, i + 7) =~= marker());
    true
}

/// The widget type of a package folder: the folder's name with every
/// occurrence of the marker taken out, where the name ends with the marker
/// and the folder holds an entry script; `None` otherwise.
pub fn package_type(name: &str, has_entry: bool) -> (r: Option<String>)
    ensures
        r is Some <==> has_entry && is_package_name(name@),
        r matches Some(t) ==> t@ == strip_marker(name@),
{
    let n = name.unicode_len();
    if !has_entry || n < 7 || !has_marker_at(name, n, n - 7) {
        return None;
    }
    let ghost s = name@;
    let mut out = String::from_str("");
    proof {
        reveal_strlit("");
        assert(s.subrange(0, n as int) =~= s);
        assert(out@ + strip_marker(s) =~= strip_marker(s));
    }
    let mut i: usize = 0;
    while i < n
        invariant
            s == name@,
            n == s.len(),
            i <= n,
            out@ + strip_marker(s.subrange(i as int, n as int)) == strip_marker(s),
        decreases n - i,
    {
        let ghost rest = s.subrange(i as int, n as int);
        if has_marker_at(name, n, i) {
            proof {
                assert(rest.subrange(0, 7) =~= s.subrange(i as int, i + 7));
                assert(rest.subrange(7, rest.len() as int) =~= s.subrange(i + 7, n as int));
            }
            i = i + 7;
        } else {
            let ghost before = out@;
            out.append(name.substring_char(i, i + 1));
            proof {
                if i + 7 <= n {
                    assert(rest.subrange(0, 7) =~= s.subrange(i as int, i + 7));
                }
                assert(!marker_at(rest, 0));
                assert(rest.subrange(1, rest.len() as int) =~= s.subrange(i + 1, n as int));
                assert(s.subrange(i as int, i + 1) =~= seq![rest[0]]);
                assert(out@ =~= before + seq![rest[0]]);
                assert(before + strip_marker(rest) =~= before + (seq![rest[0]] + strip_marker(s.subrange(i + 1, n as int))));
                assert(out@ + strip_marker(s.subrange(i + 1, n as int)) =~= before + (seq![rest[0]] + strip_marker(s.subrange(i + 1, n as int))));
            }
            i = i + 1;
        }
    }
    proof {
        assert(s.subrange(n as int, n as int) =~= Seq::<char>::empty());
        assert(out@ + Seq::<char>::empty() =~= out@);
    }
    Some(out)
}

/// The folder name of the package of a widget type.
pub fn package_dir_name(kind: &str) -> (r: String)
    ensures
        r@ == kind@ + marker(),
{
    let r = String::from_str(kind).concat(".widget");
    proof {
        reveal_strlit(".widget");
        assert(".widget"@ =~= marker());
    }
    r
}

} // verus!
