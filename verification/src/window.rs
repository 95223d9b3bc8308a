use vstd::prelude::*;

verus! {

/// Path separators of Windows paths.
pub open spec fn is_separator(c: char) -> bool {
    c == '\\' || c == '/'
}

/// What follows the last separator of `path` (all of it if it has none).
pub open spec fn last_component(path: Seq<char>) -> Seq<char>
    decreases path.len(),
{
    if path.len() == 0 {
        Seq::empty()
    } else if is_separator(path.last()) {
        Seq::empty()
    } else {
        last_component(path.drop_last()).push(path.last())
    }
}

/// The executable file name (e.g. `chrome.exe`) of a full image path such as
/// `C:\Program Files\Google\Chrome\Application\chrome.exe`: the text after
/// the last `\` or `/`.
pub fn executable_file_name(full_path: &str) -> (name: String)
    ensures
        name@ == last_component(full_path@),
{
    let n = full_path.unicode_len();
    let mut start: usize = 0;
    let mut i: usize = 0;
    assert(full_path@.take(0) =~= Seq::<char>::empty());
    while i < n
        invariant
            n == full_path@.len(),
            start <= i <= n,
            last_component(full_path@.take(i as int)) =~= full_path@.subrange(start as int, i as int),
        decreases n - i,
    {
        let c = full_path.get_char(i);
        proof {
            assert(full_path@.take(i + 1).drop_last() =~= full_path@.take(i as int));
            assert(full_path@.take(i + 1).last() == c);
        }
        if c == '\\' || c == '/' {
            start = i + 1;
        }
        i = i + 1;
    }
    assert(full_path@.take(n as int) =~= full_path@);
    String::from_str(full_path.substring_char(start, n))
}

/// The executable name holds no separator.
pub proof fn lemma_file_name_has_no_separator(path: Seq<char>)
    ensures
        forall|i: int| 0 <= i < last_component(path).len() ==> !is_separator(#[trigger] last_component(path)[i]),
    decreases path.len(),
{
    if path.len() > 0 && !is_separator(path.last()) {
        lemma_file_name_has_no_separator(path.drop_last());
        let rest = last_component(path.drop_last());
        assert forall|i: int| 0 <= i < last_component(path).len() implies !is_separator(
            #[trigger] last_component(path)[i],
        ) by {
            if i < rest.len() {
                assert(last_component(path)[i] == rest[i]);
            }
        }
    }
}

/// The executable name ends the path.
pub proof fn lemma_file_name_is_suffix(path: Seq<char>)
    ensures
        last_component(path).len() <= path.len(),
        last_component(path) =~= path.subrange(path.len() - last_component(path).len(), path.len() as int),
    decreases path.len(),
{
    if path.len() > 0 && !is_separator(path.last()) {
        lemma_file_name_is_suffix(path.drop_last());
    }
}

/// A path without separators is its own executable name.
pub proof fn lemma_file_name_of_bare_name(path: Seq<char>)
    requires
        forall|i: int| 0 <= i < path.len() ==> !is_separator(#[trigger] path[i]),
    ensures
        last_component(path) == path,
    decreases path.len(),
{
    if path.len() > 0 {
        assert(!is_separator(path[path.len() - 1]));
        lemma_file_name_of_bare_name(path.drop_last());
        assert(path.drop_last().push(path.last()) =~= path);
    }
}

} // verus!
