//! How tables map to files inside a store's directory.

use vstd::prelude::*;
use vstd::string::*;

verus! {

/// The suffix of every table file: a dot and the extension `json`.
pub open spec fn table_suffix() -> Seq<char> {
    seq!['.', 'j', 's', 'o', 'n']
}

/// The name of the file that holds table `name`: the name followed by `.json`.
pub open spec fn file_name_of(name: Seq<char>) -> Seq<char> {
    name + table_suffix()
}

/// A directory entry is a table file when its extension is exactly `json`:
/// the name ends in `.json` and has something before that dot (a name such as
/// `.json` is a hidden file without extension).
pub open spec fn is_table_file_name(f: Seq<char>) -> bool {
    f.len() > 5 && f.subrange(f.len() - 5, f.len() as int) == table_suffix()
}

/// Two tables never share a file.
pub proof fn lemma_file_name_injective(a: Seq<char>, b: Seq<char>)
    ensures
        file_name_of(a) == file_name_of(b) ==> a == b,
{
    if file_name_of(a) == file_name_of(b) {
        assert(a =~= file_name_of(a).subrange(0, a.len() as int));
        assert(b =~= file_name_of(b).subrange(0, b.len() as int));
    }
}

/// Every table's file is recognised as a table file when the directory is read.
pub proof fn lemma_file_name_is_table_file(name: Seq<char>)
    requires
        name.len() > 0,
    ensures
        is_table_file_name(file_name_of(name)),
{
    let f = file_name_of(name);
    assert(f.subrange(f.len() - 5, f.len() as int) =~= table_suffix());
}

/// The file name under which table `name` is written.
pub fn table_file_name(name: &str) -> (r: String)
    ensures
        r@ == file_name_of(name@),
{
    let mut r = String::from_str(name);
    r.append(".json");
    proof {
        reveal_strlit(".json");
        assert(".json"@ =~= table_suffix());
    }
    r
}

/// Whether a directory entry of this name holds a table.
pub fn is_table_file(file_name: &str) -> (r: bool)
    ensures
        r == is_table_file_name(file_name@),
{
    let n = file_name.unicode_len();
    if n <= 5 {
        return false;
    }
    let ghost s = table_suffix();
    let expected: [char; 5] = ['.', 'j', 's', 'o', 'n'];
    let mut i: usize = 0;
    while i < 5
        invariant
            n == file_name@.len(),
            n > 5,
            i <= 5,
            s == table_suffix(),
            expected@ == s,
            forall|j: int| 0 <= j < i ==> file_name@[n - 5 + j] == s[j],
        decreases 5 - i,
    {
        let c = file_name.get_char(n - 5 + i);
        let e = expected[i];
        if c != e {
            assert(file_name@.subrange(n - 5, n as int)[i as int] != s[i as int]);
            return false;
        }
        i = i + 1;
    }
    assert(file_name@.subrange(n - 5, n as int) =~= s);
    true
}

} // verus!
