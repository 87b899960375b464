//! Paths with slashes, as strings.

use vstd::prelude::*;

use crate::text::{chars_of, joined, joined3};

verus! {

/// Where the last component of the first `end` characters starts and ends: components
/// are parted by slashes, and empty ones and single dots do not count.
pub open spec fn last_component(s: Seq<char>, end: int) -> Option<(int, int)>
    decreases end,
{
    if end <= 0 {
        None
    } else if s[end - 1] == '/' {
        last_component(s, end - 1)
    } else {
        let start = component_start(s, end);
        proof {
            component_start_is_before(s, end);
        }
        if start == end - 1 && s[start] == '.' {
            last_component(s, start)
        } else {
            Some((start, end))
        }
    }
}

/// Where the component that ends at a place starts.
pub open spec fn component_start(s: Seq<char>, end: int) -> int
    decreases end,
{
    if end <= 0 || s[end - 1] == '/' {
        end
    } else {
        component_start(s, end - 1)
    }
}

pub proof fn component_start_is_before(s: Seq<char>, end: int)
    ensures
        component_start(s, end) <= end,
        0 <= end ==> 0 <= component_start(s, end),
        0 < end && s[end - 1] != '/' ==> component_start(s, end) < end,
    decreases end,
{
    if end > 0 && s[end - 1] != '/' {
        component_start_is_before(s, end - 1);
    }
}

proof fn last_component_is_inside(s: Seq<char>, end: int)
    requires
        0 <= end <= s.len(),
    ensures
        last_component(s, end) matches Some((a, b)) ==> 0 <= a < b <= end,
    decreases end,
{
    if end > 0 {
        component_start_is_before(s, end);
        if s[end - 1] == '/' {
            last_component_is_inside(s, end - 1);
        } else if component_start(s, end) == end - 1 && s[end - 1] == '.' {
            last_component_is_inside(s, end - 1);
        }
    }
}

/// The name at the end of a path. A path that ends in two dots has none.
pub open spec fn file_name(path: Seq<char>) -> Option<Seq<char>> {
    match last_component(path, path.len() as int) {
        Some((a, b)) => if path.subrange(a, b) == seq!['.', '.'] {
            None
        } else {
            Some(path.subrange(a, b))
        },
        None => None,
    }
}

/// The place of the last dot before a place, or -1.
pub open spec fn last_dot(s: Seq<char>, end: int) -> int
    decreases end,
{
    if end <= 0 {
        -1
    } else if s[end - 1] == '.' {
        end - 1
    } else {
        last_dot(s, end - 1)
    }
}

/// What follows the last dot of a path's file name. A dot at the start of the name
/// does not count.
pub open spec fn extension(path: Seq<char>) -> Option<Seq<char>> {
    match file_name(path) {
        Some(name) => if last_dot(name, name.len() as int) > 0 {
            Some(name.skip(last_dot(name, name.len() as int) + 1))
        } else {
            None
        },
        None => None,
    }
}

/// A path with a name behind it.
pub open spec fn path_join(base: Seq<char>, name: Seq<char>) -> Seq<char> {
    if base.len() == 0 {
        name
    } else if base.last() == '/' {
        base + name
    } else {
        base + "/"@ + name
    }
}

/// A path with a relative name behind it.
pub fn join_path(base: &str, name: &str) -> (path: String)
    ensures
        path@ == path_join(base@, name@),
{
    let chars = chars_of(base);
    if chars.len() == 0 {
        name.to_owned()
    } else if chars[chars.len() - 1] == '/' {
        joined(base, name)
    } else {
        joined3(base, "/", name)
    }
}

fn last_component_of(s: &[char]) -> (found: Option<(usize, usize)>)
    ensures
        match found {
            Some((a, b)) => last_component(s@, s@.len() as int) == Some((a as int, b as int)) && a < b <= s@.len(),
            None => last_component(s@, s@.len() as int) is None,
        },
{
    let mut end: usize = s.len();
    while end > 0
        invariant
            end <= s@.len(),
            last_component(s@, s@.len() as int) == last_component(s@, end as int),
        decreases end,
    {
        proof {
            last_component_is_inside(s@, end as int);
        }
        if s[end - 1] == '/' {
            end = end - 1;
        } else {
            let mut start: usize = end;
            while start > 0 && s[start - 1] != '/'
                invariant
                    start <= end <= s@.len(),
                    component_start(s@, end as int) == component_start(s@, start as int),
                decreases start,
            {
                start = start - 1;
            }
            if start == end - 1 && s[start] == '.' {
                end = start;
            } else {
                return Some((start, end));
            }
        }
    }
    None
}

/// What follows the last dot of a path's file name.
pub fn extension_of(path: &str) -> (found: Option<Vec<char>>)
    ensures
        match found {
            Some(e) => extension(path@) == Some(e@),
            None => extension(path@) is None,
        },
{
    let s = chars_of(path);
    match last_component_of(&s) {
        None => None,
        Some((start, end)) => {
            let ghost name = s@.subrange(start as int, end as int);
            if end - start == 2 && s[start] == '.' && s[start + 1] == '.' {
                assert(name =~= seq!['.', '.']);
                return None;
            }
            proof {
                if name == seq!['.', '.'] {
                    assert(name[0] == '.' && name[1] == '.');
                }
            }
            let mut i: usize = end;
            while i > start && s[i - 1] != '.'
                invariant
                    start <= i <= end <= s@.len(),
                    name == s@.subrange(start as int, end as int),
                    last_dot(name, name.len() as int) == last_dot(name, i - start),
                decreases i,
            {
                i = i - 1;
            }
            if i > start + 1 {
                let out = vstd::slice::slice_to_vec(vstd::slice::slice_subrange(&s, i, end));
                assert(out@ =~= name.skip(i - start));
                Some(out)
            } else {
                None
            }
        },
    }
}

// ---- laws ----

proof fn a_component_reaches_back(s: Seq<char>, start: int, end: int)
    requires
        0 <= start <= end <= s.len(),
        start == 0 || s[start - 1] == '/',
        forall|k: int| start <= k < end ==> #[trigger] s[k] != '/',
    ensures
        component_start(s, end) == start,
    decreases end - start,
{
    if start < end {
        assert(s[end - 1] != '/');
        a_component_reaches_back(s, start, end - 1);
    }
}

proof fn the_last_dot_is_found(s: Seq<char>, dot: int, end: int)
    requires
        0 <= dot < end <= s.len(),
        s[dot] == '.',
        forall|k: int| dot < k < end ==> #[trigger] s[k] != '.',
    ensures
        last_dot(s, end) == dot,
    decreases end - dot,
{
    if dot < end - 1 {
        assert(s[end - 1] != '.');
        the_last_dot_is_found(s, dot, end - 1);
    }
}

/// The extension of a file is what follows the last dot of its name, whatever directory it
/// lies in.
pub proof fn an_extension_follows_the_last_dot(directory: Seq<char>, stem: Seq<char>, ext: Seq<char>)
    requires
        directory.len() == 0 || directory.last() == '/',
        stem.len() > 0,
        !stem.contains('/'),
        ext.len() > 0,
        !ext.contains('/'),
        !ext.contains('.'),
    ensures
        extension(directory + stem + seq!['.'] + ext) == Some(ext),
{
    let path = directory + stem + seq!['.'] + ext;
    let name = stem + seq!['.'] + ext;
    let start = directory.len() as int;
    let end = path.len() as int;
    assert(path[end - 1] == ext.last());
    assert forall|k: int| start <= k < end implies #[trigger] path[k] != '/' by {
        if k < start + stem.len() {
            assert(path[k] == stem[k - start]);
        } else if k > start + stem.len() {
            assert(path[k] == ext[k - start - stem.len() - 1]);
        }
    }
    if start > 0 {
        assert(path[start - 1] == directory.last());
    }
    a_component_reaches_back(path, start, end);
    assert(path.subrange(start, end) =~= name);
    assert(name.last() == ext.last());
    assert(name != seq!['.', '.']) by {
        if name == seq!['.', '.'] {
            assert(ext.last() == '.');
            assert(ext[ext.len() - 1] == '.');
        }
    }
    assert forall|k: int| stem.len() < k < name.len() implies #[trigger] name[k] != '.' by {
        assert(name[k] == ext[k - stem.len() - 1]);
    }
    the_last_dot_is_found(name, stem.len() as int, name.len() as int);
    assert(name.skip(stem.len() as int + 1) =~= ext);
}

/// A file without a dot in its name has no extension.
pub proof fn a_name_without_a_dot_has_no_extension(directory: Seq<char>, name: Seq<char>)
    requires
        directory.len() == 0 || directory.last() == '/',
        name.len() > 0,
        !name.contains('/'),
        !name.contains('.'),
    ensures
        extension(directory + name) is None,
{
    let path = directory + name;
    let start = directory.len() as int;
    let end = path.len() as int;
    assert(path[end - 1] == name.last());
    assert(name.last() != '/' && name.last() != '.');
    assert forall|k: int| start <= k < end implies #[trigger] path[k] != '/' by {
        assert(path[k] == name[k - start]);
    }
    if start > 0 {
        assert(path[start - 1] == directory.last());
    }
    a_component_reaches_back(path, start, end);
    assert(path.subrange(start, end) =~= name);
    no_dot_is_found(name, name.len() as int);
}

proof fn no_dot_is_found(s: Seq<char>, end: int)
    requires
        0 <= end <= s.len(),
        !s.contains('.'),
    ensures
        last_dot(s, end) == -1,
    decreases end,
{
    if end > 0 {
        assert(s[end - 1] != '.');
        no_dot_is_found(s, end - 1);
    }
}

/// A name behind a path lies below it: the joined path starts with the one, ends with the
/// other, and has one slash between them.
pub proof fn a_joined_path_holds_both(base: Seq<char>, name: Seq<char>)
    requires
        base.len() > 0,
    ensures
        path_join(base, name).take(base.len() as int) == base,
        base.last() == '/' ==> path_join(base, name) == base + name,
        base.last() != '/' ==> path_join(base, name) == base + seq!['/'] + name,
        path_join(Seq::empty(), name) == name,
{
    reveal_strlit("/");
    assert("/"@ =~= seq!['/']);
    assert(path_join(base, name).take(base.len() as int) =~= base);
}

/// A name is joined to a directory with one slash between, and its extension is that of the
/// name.
pub proof fn a_joined_name_keeps_its_extension(
    base: &str,
    name: &str,
    stem: Seq<char>,
    ext: Seq<char>,
    path: String,
    whole: &str,
    found: Option<Vec<char>>,
)
    requires
        base@.len() > 0,
        base@.last() != '/',
        name@ == stem + seq!['.'] + ext,
        stem.len() > 0 && !stem.contains('/'),
        ext.len() > 0 && !ext.contains('/') && !ext.contains('.'),
        call_ensures(join_path, (base, name), path),
        whole@ == path@,
        call_ensures(extension_of, (whole,), found),
    ensures
        path@ == base@ + seq!['/'] + name@,
        found matches Some(e) && e@ == ext,
{
    a_joined_path_holds_both(base@, name@);
    let directory = base@ + seq!['/'];
    assert(directory.last() == '/');
    an_extension_follows_the_last_dot(directory, stem, ext);
    assert(directory + stem + seq!['.'] + ext =~= path@);
}

} // verus!
