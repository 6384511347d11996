//! Joining file names onto directories, as `Path::join` does on Unix.
use vstd::prelude::*;
use crate::text::{push_char, push_str};

verus! {

/// `base` joined with `name`: an absolute `name` replaces `base`; otherwise
/// a `/` is put between them unless `base` is empty or already ends in one.
pub open spec fn path_join(base: Seq<char>, name: Seq<char>) -> Seq<char> {
    if name.len() > 0 && name[0] == '/' {
        name
    } else if base.len() == 0 || base.last() == '/' {
        base + name
    } else {
        base + seq!['/'] + name
    }
}

/// A joined path always ends with `name`.  A name that starts with `/`
/// replaces the base; any other name is put under the base: the result is
/// the base, then a `/` where the base is nonempty and does not already
/// end in one, then the name.
pub proof fn lemma_path_join_laws(base: Seq<char>, name: Seq<char>)
    ensures
        path_join(base, name).len() >= name.len(),
        path_join(base, name).subrange(path_join(base, name).len() - name.len(), path_join(base, name).len() as int)
            == name,
        name.len() > 0 && name[0] == '/' ==> path_join(base, name) == name,
        !(name.len() > 0 && name[0] == '/') ==> path_join(base, name).subrange(0, base.len() as int) == base,
        !(name.len() > 0 && name[0] == '/') && base.len() > 0 && base.last() != '/'
            ==> path_join(base, name) == base + seq!['/'] + name,
        !(name.len() > 0 && name[0] == '/') && (base.len() == 0 || base.last() == '/')
            ==> path_join(base, name) == base + name,
{
    let r = path_join(base, name);
    assert(r.subrange(r.len() - name.len(), r.len() as int) =~= name);
    if !(name.len() > 0 && name[0] == '/') {
        assert(r.subrange(0, base.len() as int) =~= base);
    }
}

/// The first character of `s`, if any.
fn first_char(s: &str) -> (r: Option<char>)
    ensures
        r == (if s@.len() > 0 { Some(s@[0]) } else { None::<char> }),
{
    let mut result: Option<char> = None;
    for c in iter: s.chars()
        invariant
            iter.seq() == s@,
            result == (if iter.index() > 0 { Some(s@[0]) } else { None::<char> }),
    {
        if result.is_none() {
            result = Some(c);
        }
    }
    result
}

/// The last character of `s`, if any.
fn last_char(s: &str) -> (r: Option<char>)
    ensures
        r == (if s@.len() > 0 { Some(s@.last()) } else { None::<char> }),
{
    let mut result: Option<char> = None;
    for c in iter: s.chars()
        invariant
            iter.seq() == s@,
            result == (if iter.index() > 0 { Some(s@[iter.index() - 1]) } else { None::<char> }),
    {
        result = Some(c);
    }
    result
}

/// `base` joined with `name`, as `Path::new(base).join(name)` joins them.
pub fn join_path(base: &str, name: &str) -> (r: String)
    ensures
        r@ == path_join(base@, name@),
{
    let mut out = String::new();
    let absolute = match first_char(name) {
        Some(c) => c == '/',
        None => false,
    };
    if absolute {
        push_str(&mut out, name);
    } else {
        push_str(&mut out, base);
        let need_sep = match last_char(base) {
            Some(c) => c != '/',
            None => false,
        };
        if need_sep {
            push_char(&mut out, '/');
        }
        push_str(&mut out, name);
    }
    assert(out@ =~= path_join(base@, name@));
    out
}

} // verus!
