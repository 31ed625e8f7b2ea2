//! Locating a Cargo-built binary from within an integration test.
//!
//! Integration tests run from the build output directory (or its `deps`
//! subdirectory), so the path of the running test executable determines
//! where sibling binaries of the same crate were placed.  The path
//! computation here is pure; the caller supplies the running executable's
//! path and the platform's executable suffix.

use vstd::prelude::*;

verus! {

/// An error in finding a crate's binary.
#[derive(Debug)]
pub struct CargoError {
    /// The underlying cause's message, when one is recorded.
    pub cause: Option<String>,
}

/// The diagnostic rendering of a [`CargoError`]: a `Cause:` line when a
/// cause is recorded, else nothing.
pub open spec fn cargo_error_rendered(e: CargoError) -> Seq<char> {
    match e.cause {
        Some(c) => "Cause: "@ + c@ + "\n"@,
        None => Seq::<char>::empty(),
    }
}

impl CargoError {
    /// Wraps the message of an underlying error for passing up.
    pub fn with_cause(cause: String) -> (r: Self)
        ensures
            r == (CargoError { cause: Some(cause) }),
    {
        CargoError { cause: Some(cause) }
    }

    /// The diagnostic text of the error.
    pub fn render(&self) -> (r: String)
        ensures
            r@ == cargo_error_rendered(*self),
    {
        match &self.cause {
            Some(c) => {
                let mut out = String::from_str("Cause: ");
                out.append(c.as_str());
                out.append("\n");
                proof {
                    assert(out@ =~= cargo_error_rendered(*self));
                }
                out
            },
            None => String::new(),
        }
    }
}

/// Creation of a command for a binary of the current crate, for launcher
/// types outside this crate to implement.
pub trait CommandCargoExt: Sized {
    /// Creates a command to run the named binary of the current crate.
    fn cargo_bin(name: &str) -> Result<Self, CargoError>;
}

/// The index of the last path separator in `p`, or `-1` when it has
/// none.
pub open spec fn last_slash(p: Seq<char>) -> int
    decreases p.len(),
{
    if p.len() == 0 {
        -1
    } else if p.last() == '/' {
        p.len() - 1
    } else {
        last_slash(p.drop_last())
    }
}

/// Everything before the last separator; empty when there is none.
pub open spec fn parent_dir(p: Seq<char>) -> Seq<char> {
    if last_slash(p) >= 0 {
        p.take(last_slash(p))
    } else {
        Seq::<char>::empty()
    }
}

/// Everything after the last separator; the whole path when there is
/// none.
pub open spec fn last_component(p: Seq<char>) -> Seq<char> {
    p.skip(last_slash(p) + 1)
}

/// The build output directory, derived from the path of the running test
/// executable: the executable's own directory, less a trailing `deps`
/// component.
pub open spec fn target_dir_of(current_exe: Seq<char>) -> Seq<char> {
    let dir = parent_dir(current_exe);
    if last_component(dir) == "deps"@ {
        parent_dir(dir)
    } else {
        dir
    }
}

/// The expected path of the named binary: the build output directory, a
/// separator, the name, and the executable suffix.
pub open spec fn cargo_bin_path(current_exe: Seq<char>, name: Seq<char>, exe_suffix: Seq<char>) -> Seq<
    char,
> {
    let dir = target_dir_of(current_exe);
    if dir.len() == 0 {
        name + exe_suffix
    } else {
        dir + "/"@ + name + exe_suffix
    }
}

proof fn lemma_last_slash_bounds(p: Seq<char>)
    ensures
        -1 <= last_slash(p) < p.len(),
        last_slash(p) >= 0 ==> p[last_slash(p)] == '/',
    decreases p.len(),
{
    if p.len() == 0 {
    } else if p.last() == '/' {
    } else {
        lemma_last_slash_bounds(p.drop_last());
        if last_slash(p.drop_last()) >= 0 {
            assert(p.drop_last()[last_slash(p)] == p[last_slash(p)]);
        }
    }
}

/// The index of the last separator, when the path holds one.
fn rfind_slash(p: &str) -> (r: Option<usize>)
    ensures
        (match r {
            Some(i) => last_slash(p@) == i as int && i < p@.len(),
            None => last_slash(p@) == -1,
        }),
{
    let n = p.unicode_len();
    let mut j: usize = n;
    proof {
        assert(p@.take(n as int) =~= p@);
    }
    while j > 0
        invariant
            n == p@.len(),
            j <= n,
            last_slash(p@) == last_slash(p@.take(j as int)),
        decreases j,
    {
        let c = p.get_char(j - 1);
        proof {
            assert(p@.take(j as int).last() == p@[j - 1]);
            assert(p@.take(j as int).drop_last() =~= p@.take(j - 1));
        }
        if c == '/' {
            return Some(j - 1);
        }
        j = j - 1;
    }
    proof {
        assert(p@.take(0).len() == 0);
    }
    None
}

/// Everything before the last separator of `p`.
fn parent_of(p: &str) -> (r: String)
    ensures
        r@ == parent_dir(p@),
{
    match rfind_slash(p) {
        Some(i) => {
            let sub = p.substring_char(0, i);
            proof {
                assert(sub@ =~= p@.take(i as int));
            }
            String::from_str(sub)
        },
        None => String::new(),
    }
}

/// Whether the texts are equal, character for character.
fn eq_str(a: &str, b: &str) -> (r: bool)
    ensures
        r == (a@ == b@),
{
    let n = a.unicode_len();
    if n != b.unicode_len() {
        return false;
    }
    let mut i: usize = 0;
    while i < n
        invariant
            n == a@.len() == b@.len(),
            i <= n,
            forall|k: int| 0 <= k < i ==> a@[k] == b@[k],
        decreases n - i,
    {
        if a.get_char(i) != b.get_char(i) {
            return false;
        }
        i = i + 1;
    }
    proof {
        assert(a@ =~= b@);
    }
    true
}

/// The build output directory for the given running-executable path.
fn target_dir(current_exe: &str) -> (r: String)
    ensures
        r@ == target_dir_of(current_exe@),
{
    let dir = parent_of(current_exe);
    let comp = match rfind_slash(dir.as_str()) {
        Some(i) => {
            let n = dir.as_str().unicode_len();
            proof {
                lemma_last_slash_bounds(dir@);
            }
            let sub = dir.as_str().substring_char(i + 1, n);
            proof {
                assert(sub@ =~= dir@.skip(last_slash(dir@) + 1));
            }
            String::from_str(sub)
        },
        None => {
            proof {
                assert(dir@.skip(0) =~= dir@);
            }
            dir.clone()
        },
    };
    if eq_str(comp.as_str(), "deps") {
        parent_of(dir.as_str())
    } else {
        dir
    }
}

/// The filesystem path where the named Cargo-built binary of the current
/// crate is expected.  The caller supplies the running test executable's
/// path and the platform's executable suffix; paths use `/` as the
/// separator.
pub fn cargo_bin(name: &str, current_exe: &str, exe_suffix: &str) -> (r: String)
    ensures
        r@ == cargo_bin_path(current_exe@, name@, exe_suffix@),
{
    let dir = target_dir(current_exe);
    let mut out: String;
    if dir.as_str().unicode_len() == 0 {
        out = String::new();
    } else {
        out = dir;
        out.append("/");
    }
    out.append(name);
    out.append(exe_suffix);
    proof {
        assert(out@ =~= cargo_bin_path(current_exe@, name@, exe_suffix@));
    }
    out
}

} // verus!
