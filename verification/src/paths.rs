//! Unix path text operations: joining, last component, stem.
use crate::text::{chars_of, string_of};
use vstd::prelude::*;

verus! {

/// `base` joined with the relative or absolute `rel`: an absolute `rel`
/// replaces `base`; otherwise a separator is added unless `base` is empty
/// or already ends with one.
pub open spec fn join_spec(base: Seq<char>, rel: Seq<char>) -> Seq<char> {
    if rel.len() > 0 && rel[0] == '/' {
        rel
    } else if base.len() == 0 || base.last() == '/' {
        base + rel
    } else {
        base.push('/') + rel
    }
}

/// Joins `rel` onto `base`.
pub fn join(base: &str, rel: &str) -> (s: String)
    ensures
        s@ == join_spec(base@, rel@),
{
    let b = chars_of(base);
    let r = chars_of(rel);
    if r.len() > 0 && r[0] == '/' {
        return string_of(r.as_slice());
    }
    let mut out = b.clone();
    if !(b.len() == 0 || b[b.len() - 1] == '/') {
        out.push('/');
    }
    let mut i: usize = 0;
    let ghost start = out@;
    while i < r.len()
        invariant
            i <= r@.len(),
            out@ == start + r@.take(i as int),
        decreases r@.len() - i,
    {
        out.push(r[i]);
        proof {
            assert(r@.take(i + 1) =~= r@.take(i as int).push(r@[i as int]));
        }
        i = i + 1;
    }
    proof {
        assert(r@.take(r@.len() as int) =~= r@);
        assert(out@ =~= join_spec(base@, rel@));
    }
    string_of(out.as_slice())
}

/// `s` without trailing '/' characters.
pub open spec fn trim_slashes(s: Seq<char>) -> Seq<char>
    decreases s.len(),
{
    if s.len() > 0 && s.last() == '/' {
        trim_slashes(s.drop_last())
    } else {
        s
    }
}

/// Index of the last '/' in `s`, or -1.
pub open spec fn last_slash(s: Seq<char>) -> int
    decreases s.len(),
{
    if s.len() == 0 {
        -1
    } else if s.last() == '/' {
        s.len() - 1
    } else {
        last_slash(s.drop_last())
    }
}

/// Last normal component of a path (`None` for "/", "", "." or "..").
pub open spec fn file_name_spec(s: Seq<char>) -> Option<Seq<char>>
    decreases s.len(),
{
    let t = trim_slashes(s);
    if t.len() == 0 {
        None
    } else {
        let k = last_slash(t);
        let seg = t.subrange(k + 1, t.len() as int);
        if seg == seq!['.'] {
            if k < 0 {
                None
            } else {
                proof {
                    lemma_trim_slashes(s);
                    lemma_last_slash(t);
                }
                file_name_spec(t.subrange(0, k + 1))
            }
        } else if seg == seq!['.', '.'] {
            None
        } else {
            Some(seg)
        }
    }
}

pub proof fn lemma_trim_slashes(s: Seq<char>)
    ensures
        trim_slashes(s).len() <= s.len(),
        trim_slashes(s) == s.subrange(0, trim_slashes(s).len() as int),
        trim_slashes(s).len() == 0 || trim_slashes(s).last() != '/',
    decreases s.len(),
{
    if s.len() > 0 && s.last() == '/' {
        lemma_trim_slashes(s.drop_last());
        assert(s.drop_last().subrange(0, trim_slashes(s).len() as int) =~= s.subrange(0, trim_slashes(s).len() as int));
    } else {
        assert(s.subrange(0, s.len() as int) =~= s);
    }
}

pub proof fn lemma_last_slash(s: Seq<char>)
    ensures
        -1 <= last_slash(s) < s.len(),
        last_slash(s) >= 0 ==> s[last_slash(s)] == '/',
        forall|j: int| last_slash(s) < j < s.len() ==> s[j] != '/',
    decreases s.len(),
{
    if s.len() > 0 && s.last() != '/' {
        lemma_last_slash(s.drop_last());
        assert forall|j: int| last_slash(s) < j < s.len() implies s[j] != '/' by {
            if j < s.len() - 1 {
                assert(s[j] == s.drop_last()[j]);
            }
        }
    }
}

fn trim_slashes_exec(s: &[char]) -> (t: usize)
    ensures
        t as int == trim_slashes(s@).len(),
{
    let mut n = s.len();
    proof {
        assert(s@.subrange(0, n as int) =~= s@);
    }
    while n > 0 && s[n - 1] == '/'
        invariant
            n <= s@.len(),
            trim_slashes(s@) == trim_slashes(s@.subrange(0, n as int)),
        decreases n,
    {
        proof {
            assert(s@.subrange(0, n as int).drop_last() =~= s@.subrange(0, n - 1));
        }
        n = n - 1;
    }
    n
}

/// Number of characters before the last '/' among the first `n`, plus one
/// (0 when there is no '/'): the start of the last segment.
fn segment_start(s: &[char], n: usize) -> (k: usize)
    requires
        n <= s@.len(),
    ensures
        k as int == last_slash(s@.subrange(0, n as int)) + 1,
{
    let mut i = n;
    while i > 0 && s[i - 1] != '/'
        invariant
            i <= n <= s@.len(),
            last_slash(s@.subrange(0, n as int)) == last_slash(s@.subrange(0, i as int)),
        decreases i,
    {
        proof {
            assert(s@.subrange(0, i as int).drop_last() =~= s@.subrange(0, i - 1));
        }
        i = i - 1;
    }
    i
}

/// Last normal component of a path.
pub fn file_name(path: &str) -> (r: Option<String>)
    ensures
        r matches Some(s) ==> file_name_spec(path@) == Some(s@),
        r is None ==> file_name_spec(path@) is None,
{
    let v = chars_of(path);
    file_name_chars(v.as_slice())
}

fn file_name_chars(s: &[char]) -> (r: Option<String>)
    ensures
        r matches Some(x) ==> file_name_spec(s@) == Some(x@),
        r is None ==> file_name_spec(s@) is None,
    decreases s@.len(),
{
    let t = trim_slashes_exec(s);
    proof {
        lemma_trim_slashes(s@);
    }
    if t == 0 {
        return None;
    }
    let start = segment_start(s, t);
    let ghost k = start - 1;
    let ghost tt = trim_slashes(s@);
    proof {
        assert(tt =~= s@.subrange(0, t as int));
        lemma_last_slash(tt);
    }
    let seg = vstd::slice::slice_subrange(s, start, t);
    proof {
        assert(seg@ =~= tt.subrange(k + 1, tt.len() as int));
    }
    if seg.len() == 1 && seg[0] == '.' {
        proof {
            assert(seg@ =~= seq!['.']);
        }
        if start == 0 {
            return None;
        }
        let head = vstd::slice::slice_subrange(s, 0, start);
        proof {
            assert(head@ =~= tt.subrange(0, k + 1));
        }
        return file_name_chars(head);
    }
    if seg.len() == 2 && seg[0] == '.' && seg[1] == '.' {
        proof {
            assert(seg@ =~= seq!['.', '.']);
        }
        return None;
    }
    proof {
        if seg@.len() == 1 {
            assert(seg@ != seq!['.']);
        }
        if seg@.len() == 2 {
            assert(seg@ != seq!['.', '.']);
        }
    }
    Some(string_of(seg))
}

/// Index of the last '.' in `s`, or -1.
pub open spec fn last_dot(s: Seq<char>) -> int
    decreases s.len(),
{
    if s.len() == 0 {
        -1
    } else if s.last() == '.' {
        s.len() - 1
    } else {
        last_dot(s.drop_last())
    }
}

/// Stem of a file name: the part before the last '.', unless that '.' is
/// the first character (or the name is "..").
pub open spec fn stem_of(name: Seq<char>) -> Seq<char> {
    if name == seq!['.', '.'] || last_dot(name) <= 0 {
        name
    } else {
        name.subrange(0, last_dot(name))
    }
}

/// Stem of the last component of a path.
pub open spec fn file_stem_spec(path: Seq<char>) -> Option<Seq<char>> {
    match file_name_spec(path) {
        None => None,
        Some(n) => Some(stem_of(n)),
    }
}

/// Stem of the last component of a path.
pub fn file_stem(path: &str) -> (r: Option<String>)
    ensures
        r matches Some(s) ==> file_stem_spec(path@) == Some(s@),
        r is None ==> file_stem_spec(path@) is None,
{
    match file_name(path) {
        None => None,
        Some(name) => {
            let v = chars_of(name.as_str());
            let mut i = v.len();
            proof {
                assert(v@.subrange(0, i as int) =~= v@);
            }
            while i > 0 && v[i - 1] != '.'
                invariant
                    i <= v@.len(),
                    last_dot(v@) == last_dot(v@.subrange(0, i as int)),
                decreases i,
            {
                proof {
                    assert(v@.subrange(0, i as int).drop_last() =~= v@.subrange(0, i - 1));
                }
                i = i - 1;
            }
            proof {
                if i > 0 {
                    assert(v@.subrange(0, i as int).last() == '.');
                }
            }
            let is_dotdot = v.len() == 2 && v[0] == '.' && v[1] == '.';
            proof {
                if v@.len() == 2 && v@[0] == '.' && v@[1] == '.' {
                    assert(v@ =~= seq!['.', '.']);
                }
            }
            if is_dotdot || i <= 1 {
                Some(name)
            } else {
                Some(string_of(vstd::slice::slice_subrange(v.as_slice(), 0, i - 1)))
            }
        },
    }
}

/// Extension of a file name: the part after the last '.', unless that
/// '.' is the first character (or the name is "..").
pub open spec fn extension_of(name: Seq<char>) -> Option<Seq<char>> {
    if name == seq!['.', '.'] || last_dot(name) <= 0 {
        None
    } else {
        Some(name.subrange(last_dot(name) + 1, name.len() as int))
    }
}

/// Extension of the last component of a path.
pub open spec fn extension_spec(path: Seq<char>) -> Option<Seq<char>> {
    match file_name_spec(path) {
        None => None,
        Some(n) => extension_of(n),
    }
}

/// Whether the last component of `path` has the extension `ext`.
pub fn has_extension(path: &str, ext: &str) -> (b: bool)
    ensures
        b == (extension_spec(path@) == Some(ext@)),
{
    match file_name(path) {
        None => false,
        Some(name) => {
            let v = chars_of(name.as_str());
            let mut i = v.len();
            proof {
                assert(v@.subrange(0, i as int) =~= v@);
            }
            while i > 0 && v[i - 1] != '.'
                invariant
                    i <= v@.len(),
                    last_dot(v@) == last_dot(v@.subrange(0, i as int)),
                decreases i,
            {
                proof {
                    assert(v@.subrange(0, i as int).drop_last() =~= v@.subrange(0, i - 1));
                }
                i = i - 1;
            }
            proof {
                if i > 0 {
                    assert(v@.subrange(0, i as int).last() == '.');
                }
            }
            let is_dotdot = v.len() == 2 && v[0] == '.' && v[1] == '.';
            proof {
                if v@.len() == 2 && v@[0] == '.' && v@[1] == '.' {
                    assert(v@ =~= seq!['.', '.']);
                }
            }
            if is_dotdot || i <= 1 {
                false
            } else {
                let e = chars_of(ext);
                crate::text::chars_eq(vstd::slice::slice_subrange(v.as_slice(), i, v.len()), e.as_slice())
            }
        },
    }
}

/// The configuration root: `$XDG_CONFIG_HOME` when set, else
/// `$HOME/.config`, else the current directory.
pub open spec fn config_root_spec(xdg: Option<Seq<char>>, home: Option<Seq<char>>) -> Seq<char> {
    match xdg {
        Some(x) => x,
        None => match home {
            Some(h) => join_spec(h, ".config"@),
            None => "."@,
        },
    }
}

/// View of an optional string.
pub open spec fn opt_text(s: Option<&str>) -> Option<Seq<char>> {
    match s {
        Some(t) => Some(t@),
        None => None,
    }
}

/// The configuration root from the values of `XDG_CONFIG_HOME` and `HOME`.
pub fn config_root(xdg: Option<&str>, home: Option<&str>) -> (s: String)
    ensures
        s@ == config_root_spec(opt_text(xdg), opt_text(home)),
{
    match xdg {
        Some(x) => crate::text::string_from(x),
        None => match home {
            Some(h) => join(h, ".config"),
            None => {
                proof {
                    reveal_strlit(".");
                }
                crate::text::string_from(".")
            },
        },
    }
}

/// Directory where snapshots are kept: `<config root>/argus/snapshots`.
pub fn default_snapshots_dir(xdg: Option<&str>, home: Option<&str>) -> (s: String)
    ensures
        s@ == join_spec(join_spec(config_root_spec(opt_text(xdg), opt_text(home)), "argus"@), "snapshots"@),
{
    let root = config_root(xdg, home);
    let app = join(root.as_str(), "argus");
    join(app.as_str(), "snapshots")
}

/// Path of the configuration file: `<config root>/argus/config.toml`.
pub fn default_config_path(xdg: Option<&str>, home: Option<&str>) -> (s: String)
    ensures
        s@ == join_spec(join_spec(config_root_spec(opt_text(xdg), opt_text(home)), "argus"@), "config.toml"@),
{
    let root = config_root(xdg, home);
    let app = join(root.as_str(), "argus");
    join(app.as_str(), "config.toml")
}

/// `path` with a leading "~" standing for the home directory: "~" is the
/// home directory and "~/rest" is `rest` joined onto it; any other path,
/// or any path when there is no home directory, is unchanged.
pub open spec fn tilde_expanded(path: Seq<char>, home: Option<Seq<char>>) -> Seq<char> {
    match home {
        None => path,
        Some(h) => if path == seq!['~'] {
            h
        } else if path.len() >= 2 && path[0] == '~' && path[1] == '/' {
            join_spec(h, path.skip(2))
        } else {
            path
        },
    }
}

/// Expands a leading "~" of a typed path, given the value of `HOME`.
pub fn expand_tilde(path: &str, home: Option<&str>) -> (s: String)
    ensures
        s@ == tilde_expanded(path@, opt_text(home)),
{
    let h = match home {
        Some(h) => h,
        None => {
            return crate::text::string_from(path);
        },
    };
    let cs = chars_of(path);
    if cs.len() == 1 && cs[0] == '~' {
        proof {
            assert(path@ =~= seq!['~']);
        }
        return crate::text::string_from(h);
    }
    proof {
        if path@ == seq!['~'] {
            assert(cs@.len() == 1);
        }
    }
    if cs.len() >= 2 && cs[0] == '~' && cs[1] == '/' {
        let rest = string_of(vstd::slice::slice_subrange(cs.as_slice(), 2, cs.len()));
        proof {
            assert(rest@ =~= path@.skip(2));
        }
        return join(h, rest.as_str());
    }
    crate::text::string_from(path)
}

} // verus!
