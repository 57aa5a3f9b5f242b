//! The LSM `file_open` policy: a file whose path starts with `home/` or
//! with `/usr/bin/mkdir` may not be opened; every other file may.
use vstd::prelude::*;

verus! {

/// Length of the mount-type buffer.
pub const MOUNT_TYPE_LEN: usize = 5;

/// Length of the path buffer.
pub const PATH_LEN: usize = 512;

/// The buffer that receives the path of the file being opened.
#[derive(Clone, Copy)]
pub struct Path {
    pub path: [u8; 512],
}

/// The buffer that receives a mount type.
#[derive(Clone, Copy)]
pub struct MountType {
    pub mount_type: [u8; 5],
}

/// The bytes of `home/`.
pub open spec fn home_prefix() -> Seq<u8> {
    seq![104u8, 111u8, 109u8, 101u8, 47u8]
}

/// The bytes of `/usr/bin/mkdir`.
pub open spec fn mkdir_prefix() -> Seq<u8> {
    seq![47u8, 117u8, 115u8, 114u8, 47u8, 98u8, 105u8, 110u8, 47u8, 109u8, 107u8, 100u8, 105u8, 114u8]
}

const HOME_PREFIX: [u8; 5] = [104, 111, 109, 101, 47];

const MKDIR_PREFIX: [u8; 14] = [47, 117, 115, 114, 47, 98, 105, 110, 47, 109, 107, 100, 105, 114];

/// `pre` starts `p`.
pub open spec fn starts_with(p: Seq<u8>, pre: Seq<u8>) -> bool {
    pre.len() <= p.len() && p.subrange(0, pre.len() as int) == pre
}

/// Opening a file with path `p` is refused.
pub open spec fn path_denied(p: Seq<u8>) -> bool {
    starts_with(p, home_prefix()) || starts_with(p, mkdir_prefix())
}

/// The outcome of the policy for a path buffer `buf` (`None` when the
/// per-CPU buffer could not be had) into which the path helper returned `ret`.
pub open spec fn file_open_outcome(buf: Option<Seq<u8>>, ret: i64) -> Result<i32, i32> {
    match buf {
        None => Err(0i32),
        Some(b) => if ret < 0 {
            Err(ret as i32)
        } else if ret as usize >= PATH_LEN {
            Err(0)
        } else if path_denied(b.subrange(0, ret as usize as int)) {
            Err(-1i32)
        } else {
            Ok(0)
        },
    }
}

/// Reads the return value of the kernel's path helper: a negative value is
/// an error code, any other value is the length of the path written.
pub fn my_bpf_d_path(ret: i64) -> (r: Result<usize, i64>)
    ensures
        ret < 0 ==> r == Err::<usize, i64>(ret),
        ret >= 0 ==> r == Ok::<usize, i64>(ret as usize),
{
    if ret < 0 {
        return Err(ret);
    }
    Ok(ret as usize)
}

/// Whether the first `len` bytes of `buf` start with `pre`.
fn path_starts_with(buf: &[u8; 512], len: usize, pre: &[u8]) -> (r: bool)
    requires
        len <= 512,
    ensures
        r == starts_with(buf@.subrange(0, len as int), pre@),
{
    if pre.len() > len {
        return false;
    }
    let mut i: usize = 0;
    while i < pre.len()
        invariant
            pre@.len() <= len <= 512,
            buf@.len() == 512,
            i <= pre@.len(),
            forall|t: int| 0 <= t < i ==> buf@[t] == pre@[t],
        decreases pre@.len() - i,
    {
        if buf[i] != pre[i] {
            assert(buf@.subrange(0, len as int).subrange(0, pre@.len() as int)[i as int] != pre@[i as int]);
            return false;
        }
        i = i + 1;
    }
    assert(buf@.subrange(0, len as int).subrange(0, pre@.len() as int) =~= pre@);
    true
}

/// Decides whether the file whose path the helper wrote into `path_buf` may
/// be opened: `Ok(0)` allows it; `Err(-1)` refuses a path that starts with
/// `home/` or `/usr/bin/mkdir`; `Err(0)` when there is no buffer or the
/// path fills it; the helper's error code, as an `i32`, when it failed.
pub fn try_file_open(path_buf: Option<&Path>, d_path_ret: i64) -> (r: Result<i32, i32>)
    ensures
        r == file_open_outcome(
            match path_buf {
                Some(b) => Some(b.path@),
                None => None,
            },
            d_path_ret,
        ),
{
    let buf = match path_buf {
        Some(b) => b,
        None => return Err(0),
    };
    let len = match my_bpf_d_path(d_path_ret) {
        Ok(l) => l,
        Err(e) => return Err(#[verifier::truncate] (e as i32)),
    };
    if len >= PATH_LEN {
        return Err(0);
    }
    proof {
        assert(HOME_PREFIX@ =~= home_prefix());
        assert(MKDIR_PREFIX@ =~= mkdir_prefix());
    }
    if path_starts_with(&buf.path, len, &HOME_PREFIX) || path_starts_with(&buf.path, len, &MKDIR_PREFIX) {
        return Err(-1);
    }
    Ok(0)
}

/// The LSM hook: the decision of `try_file_open`, error or not, as the
/// hook's return value.
pub fn file_open(path_buf: Option<&Path>, d_path_ret: i64) -> (r: i32)
    ensures
        r == (match file_open_outcome(
            match path_buf {
                Some(b) => Some(b.path@),
                None => None,
            },
            d_path_ret,
        ) {
            Ok(v) => v,
            Err(v) => v,
        }),
{
    match try_file_open(path_buf, d_path_ret) {
        Ok(ret) => ret,
        Err(ret) => ret,
    }
}

/// The value the hook returns for a buffer and a helper result.
pub open spec fn file_open_value(buf: Option<Seq<u8>>, ret: i64) -> i32 {
    match file_open_outcome(buf, ret) {
        Ok(v) => v,
        Err(v) => v,
    }
}

/// A path that starts with `home/` or `/usr/bin/mkdir`, read whole into the
/// buffer, is refused with -1.
pub proof fn lemma_denied_paths_refused(b: Seq<u8>, ret: i64)
    requires
        0 <= ret,
        (ret as usize) < PATH_LEN,
        path_denied(b.subrange(0, ret as usize as int)),
    ensures
        file_open_value(Some(b), ret) == -1,
{
}

/// The hook refuses an open (returns a value other than 0) only for a
/// denied path or when the path helper failed.
pub proof fn lemma_refusal_has_cause(buf: Option<Seq<u8>>, ret: i64)
    requires
        file_open_value(buf, ret) != 0,
    ensures
        ret < 0 || (buf is Some && (ret as usize) < PATH_LEN && path_denied(
            buf->0.subrange(0, ret as usize as int),
        )),
{
}

/// When the path helper fails with a negative code, the decision is that
/// code as an error and the hook returns it, whether or not there is a buffer
/// content worth reading.
pub proof fn lemma_helper_error_returned(b: Seq<u8>, ret: i64)
    requires
        ret < 0,
    ensures
        file_open_outcome(Some(b), ret) == Err::<i32, i32>(ret as i32),
        file_open_value(Some(b), ret) == ret as i32,
{
}

/// Without a path buffer the decision is `Err(0)` and the hook returns 0.
pub proof fn lemma_no_buffer(ret: i64)
    ensures
        file_open_outcome(None, ret) == Err::<i32, i32>(0),
        file_open_value(None, ret) == 0,
{
}

/// A path of `n` bytes (`5 <= n < 512`) whose first bytes are `home/` is
/// refused with -1.
pub proof fn lemma_home_refused(b: Seq<u8>, n: i64)
    requires
        5 <= n < 512,
        n <= b.len(),
        b[0] == 104u8,
        b[1] == 111u8,
        b[2] == 109u8,
        b[3] == 101u8,
        b[4] == 47u8,
    ensures
        file_open_outcome(Some(b), n) == Err::<i32, i32>(-1i32),
{
    assert(b.subrange(0, n as usize as int).subrange(0, 5) =~= home_prefix());
}

/// A path of `n` bytes (`14 <= n < 512`) whose first bytes are
/// `/usr/bin/mkdir` is refused with -1.
pub proof fn lemma_mkdir_refused(b: Seq<u8>, n: i64)
    requires
        14 <= n < 512,
        n <= b.len(),
        b.subrange(0, 14) == seq![47u8, 117u8, 115u8, 114u8, 47u8, 98u8, 105u8, 110u8, 47u8, 109u8, 107u8, 100u8, 105u8, 114u8],
    ensures
        file_open_outcome(Some(b), n) == Err::<i32, i32>(-1i32),
{
    assert(b.subrange(0, n as usize as int).subrange(0, 14) =~= b.subrange(0, 14));
}

/// A path of `n` bytes (`0 <= n < 512`) that starts neither with `home/` nor
/// with `/usr/bin/mkdir` may be opened.
pub proof fn lemma_other_paths_allowed(b: Seq<u8>, n: i64)
    requires
        0 <= n < 512,
        n <= b.len(),
        !(n >= 5 && b.subrange(0, 5) == seq![104u8, 111u8, 109u8, 101u8, 47u8]),
        !(n >= 14 && b.subrange(0, 14) == seq![47u8, 117u8, 115u8, 114u8, 47u8, 98u8, 105u8, 110u8, 47u8, 109u8, 107u8, 100u8, 105u8, 114u8]),
    ensures
        file_open_outcome(Some(b), n) == Ok::<i32, i32>(0),
        file_open_value(Some(b), n) == 0,
{
    let p = b.subrange(0, n as usize as int);
    if starts_with(p, home_prefix()) {
        assert(b.subrange(0, 5) =~= p.subrange(0, 5));
    }
    if starts_with(p, mkdir_prefix()) {
        assert(b.subrange(0, 14) =~= p.subrange(0, 14));
    }
}

} // verus!
