use vstd::prelude::*;

verus! {

/// The logical package name of an entry called `s`: everything before the
/// last `-` (the version segment and that `-` are dropped); empty when `s`
/// holds no `-`.
pub open spec fn identity_spec(s: Seq<char>) -> Seq<char>
    decreases s.len(),
{
    if s.len() == 0 {
        Seq::empty()
    } else if s.last() == '-' {
        s.drop_last()
    } else {
        identity_spec(s.drop_last())
    }
}

/// Strips the trailing `-`-delimited version segment from a directory name.
pub fn identity_of(file_name: &str) -> (r: String)
    ensures
        r@ == identity_spec(file_name@),
{
    let n = file_name.unicode_len();
    let mut i: usize = n;
    assert(file_name@.subrange(0, n as int) =~= file_name@);
    while i > 0
        invariant
            i <= n,
            n == file_name@.len(),
            identity_spec(file_name@) == identity_spec(file_name@.subrange(0, i as int)),
        decreases i,
    {
        let ghost pre = file_name@.subrange(0, i as int);
        assert(pre.drop_last() =~= file_name@.subrange(0, i - 1));
        if file_name.get_char(i - 1) == '-' {
            return String::from_str(file_name.substring_char(0, i - 1));
        }
        i = i - 1;
    }
    assert(file_name@.subrange(0, 0) =~= Seq::<char>::empty());
    String::new()
}

} // verus!
