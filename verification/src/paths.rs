//! File-path text handling with Unix separators: the final name of a path,
//! its stem and extension, and joining a path with a child name.
use vstd::prelude::*;
use crate::text::{chars_of, split_chars, split_spec, string_from_chars};

verus! {

/// A path component that names something: not empty and not `.`.
pub open spec fn is_named_segment(s: Seq<char>) -> bool {
    s.len() > 0 && s != seq!['.']
}

/// Index of the last named segment of `segs`.
pub open spec fn last_named(segs: Seq<Seq<char>>) -> Option<int>
    decreases segs.len(),
{
    if segs.len() == 0 {
        None
    } else if is_named_segment(segs.last()) {
        Some(segs.len() - 1)
    } else {
        last_named(segs.drop_last())
    }
}

/// The final component of `path`, as `Path::file_name` gives it: the last
/// component that is not empty or `.`, unless that is `..` or there is none.
pub open spec fn file_name_spec(path: Seq<char>) -> Option<Seq<char>> {
    let segs = split_spec(path, '/');
    match last_named(segs) {
        Some(i) => if segs[i] == seq!['.', '.'] { None } else { Some(segs[i]) },
        None => None,
    }
}

/// Index of the last `.` in `name`.
pub open spec fn last_dot(name: Seq<char>) -> Option<int>
    decreases name.len(),
{
    if name.len() == 0 {
        None
    } else if name.last() == '.' {
        Some(name.len() - 1)
    } else {
        last_dot(name.drop_last())
    }
}

/// `Path::file_stem` of a file name: the part before the final `.`, or the
/// whole name when it has no `.` or its only `.` is the first character.
pub open spec fn stem_spec(name: Seq<char>) -> Seq<char> {
    match last_dot(name) {
        Some(i) => if i > 0 { name.take(i) } else { name },
        None => name,
    }
}

/// `Path::extension` of a file name: the part after the final `.`, when that
/// `.` is not the first character.
pub open spec fn extension_spec(name: Seq<char>) -> Option<Seq<char>> {
    match last_dot(name) {
        Some(i) => if i > 0 { Some(name.skip(i + 1)) } else { None },
        None => None,
    }
}

proof fn lemma_last_named_bound(segs: Seq<Seq<char>>)
    ensures
        last_named(segs) matches Some(i) ==> 0 <= i < segs.len() && is_named_segment(segs[i]),
    decreases segs.len(),
{
    if segs.len() > 0 && !is_named_segment(segs.last()) {
        lemma_last_named_bound(segs.drop_last());
    }
}

proof fn lemma_last_dot_bound(name: Seq<char>)
    ensures
        last_dot(name) matches Some(i) ==> 0 <= i < name.len() && name[i] == '.',
    decreases name.len(),
{
    if name.len() > 0 && name.last() != '.' {
        lemma_last_dot_bound(name.drop_last());
    }
}

fn is_dot_dot(s: &Vec<char>) -> (b: bool)
    ensures
        b == (s@ == seq!['.', '.']),
{
    let r = s.len() == 2 && s[0] == '.' && s[1] == '.';
    proof {
        if r {
            assert(s@ =~= seq!['.', '.']);
        }
    }
    r
}

/// The final component of `path`, as characters.
pub fn file_name_chars(path: &str) -> (r: Option<Vec<char>>)
    ensures
        match r {
            Some(v) => file_name_spec(path@) == Some(v@),
            None => file_name_spec(path@) is None,
        },
{
    let cs = chars_of(path);
    let segs = split_chars(&cs, '/');
    let ghost sp = split_spec(path@, '/');
    let mut i = segs.len();
    assert(sp.take(i as int) =~= sp);
    while i > 0
        invariant
            i <= segs@.len(),
            sp == split_spec(path@, '/'),
            segs@.len() == sp.len(),
            forall|k: int| 0 <= k < segs@.len() ==> #[trigger] segs@[k]@ == sp[k],
            last_named(sp) == last_named(sp.take(i as int)),
        decreases i,
    {
        let seg = chars_of(segs[i - 1].as_str());
        let ghost t = sp.take(i as int);
        assert(seg@ == sp[i - 1]);
        assert(t.drop_last() =~= sp.take(i - 1));
        assert(t.last() == sp[i - 1]);
        if seg.len() > 0 && !(seg.len() == 1 && seg[0] == '.') {
            assert(is_named_segment(t.last())) by {
                if t.last() == seq!['.'] {
                    assert(seg@.len() == 1 && seg@[0] == '.');
                }
            }
            assert(last_named(sp) == Some(i - 1));
            let ghost j: int = i - 1;
            assert(file_name_spec(path@) == (if sp[j] == seq!['.', '.'] { None } else { Some(sp[j]) }));
            if is_dot_dot(&seg) {
                return None;
            }
            return Some(seg);
        }
        assert(!is_named_segment(t.last())) by {
            if seg@.len() == 1 {
                assert(seg@ =~= seq!['.']);
            }
        }
        i = i - 1;
    }
    assert(sp.take(0) =~= Seq::<Seq<char>>::empty());
    None
}

/// Index of the last `.` in `name`.
fn find_last_dot(name: &Vec<char>) -> (r: Option<usize>)
    ensures
        match r {
            Some(i) => last_dot(name@) == Some(i as int),
            None => last_dot(name@) is None,
        },
{
    let mut i = name.len();
    assert(name@.take(i as int) =~= name@);
    while i > 0
        invariant
            i <= name@.len(),
            last_dot(name@) == last_dot(name@.take(i as int)),
        decreases i,
    {
        let ghost t = name@.take(i as int);
        assert(t.drop_last() =~= name@.take(i - 1));
        if name[i - 1] == '.' {
            return Some(i - 1);
        }
        i = i - 1;
    }
    assert(name@.take(0) =~= Seq::<char>::empty());
    None
}

/// The stem of the final component of `path`, or the empty string when the
/// path has no final component.
pub fn file_stem_or_empty(path: &str) -> (r: String)
    ensures
        r@ == match file_name_spec(path@) {
            Some(n) => stem_spec(n),
            None => Seq::<char>::empty(),
        },
{
    match file_name_chars(path) {
        Some(name) => {
            proof {
                lemma_last_dot_bound(name@);
            }
            match find_last_dot(&name) {
                Some(i) => {
                    if i > 0 {
                        string_from_chars(&name, 0, i)
                    } else {
                        let n = name.len();
                        let s = string_from_chars(&name, 0, n);
                        assert(name@.subrange(0, n as int) =~= name@);
                        s
                    }
                },
                None => {
                    let n = name.len();
                    let s = string_from_chars(&name, 0, n);
                    assert(name@.subrange(0, n as int) =~= name@);
                    s
                },
            }
        },
        None => String::new(),
    }
}

/// Whether the final component of `path` has the extension `json`.
pub fn has_json_extension(path: &str) -> (b: bool)
    ensures
        b == (file_name_spec(path@) matches Some(n) && extension_spec(n) == Some(seq!['j', 's', 'o', 'n'])),
{
    match file_name_chars(path) {
        Some(name) => {
            proof {
                lemma_last_dot_bound(name@);
            }
            match find_last_dot(&name) {
                Some(i) => {
                    if i == 0 {
                        return false;
                    }
                    let n = name.len();
                    let r = n - i == 5 && name[i + 1] == 'j' && name[i + 2] == 's' && name[i + 3] == 'o'
                        && name[i + 4] == 'n';
                    proof {
                        let ext = name@.skip(i + 1);
                        if r {
                            assert(ext =~= seq!['j', 's', 'o', 'n']);
                        } else if ext == seq!['j', 's', 'o', 'n'] {
                            assert(ext.len() == 4);
                            assert(ext[0] == name@[i + 1]);
                            assert(ext[1] == name@[i + 2]);
                            assert(ext[2] == name@[i + 3]);
                            assert(ext[3] == name@[i + 4]);
                        }
                    }
                    r
                },
                None => false,
            }
        },
        None => false,
    }
}

/// `Path::join` of `base` with a relative child name on Unix: a `/` goes
/// between them unless `base` is empty or already ends with one.
pub open spec fn join_spec(base: Seq<char>, child: Seq<char>) -> Seq<char> {
    if base.len() == 0 || base.last() == '/' {
        base + child
    } else {
        base.push('/') + child
    }
}

/// `base` joined with the relative child name `child`.
pub fn join_path(base: &str, child: &str) -> (r: String)
    ensures
        r@ == join_spec(base@, child@),
{
    let b = chars_of(base);
    let n = b.len();
    let mut s = string_from_chars(&b, 0, n);
    assert(b@.subrange(0, n as int) =~= b@);
    if n > 0 && b[n - 1] != '/' {
        crate::text::push_char(&mut s, '/');
    }
    s.append(child);
    s
}

} // verus!
