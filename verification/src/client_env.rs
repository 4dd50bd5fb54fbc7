//! What a client takes from its environment and its command line for itself.

use crate::env_cache;
use crate::env_cache::EnvVar;
use crate::handshake;
use crate::text;
use crate::text::{owned, same, skip, starts_with};
use vstd::prelude::*;

verus! {

// ---------------------------------------------------------------------
// The fingerprint
// ---------------------------------------------------------------------

/// What a client's environment says.
pub struct EnvInfo {
    pub fingerprint: u64,
    pub count: u16,
    pub server_path: Option<String>,
    pub runtime_dir: Option<String>,
    pub xdg_runtime_dir: Option<String>,
    pub home: Option<String>,
}

/// `h` rotated to the left by thirty-one bits.
pub open spec fn rotated(h: u64) -> u64 {
    (h << 31u64) | (h >> 33u64)
}

/// `h` after the byte `b` at index `i`.
pub open spec fn mixed(h: u64, b: u8, i: nat) -> u64 {
    rotated(h ^ (b as u64).wrapping_mul(0x9e3779b97f4a7c15u64.wrapping_add(i as u64)))
}

/// The hash of `b` after its first `n` bytes; it begins with the length.
pub open spec fn hash_of(b: Seq<u8>, n: nat) -> u64
    decreases n,
{
    if n == 0 {
        b.len() as u64
    } else {
        mixed(hash_of(b, (n - 1) as nat), b[n - 1], (n - 1) as nat)
    }
}

/// The hash of a text.
pub open spec fn text_hash(s: Seq<char>) -> u64 {
    hash_of(vstd::utf8::encode_utf8(s), vstd::utf8::encode_utf8(s).len())
}

fn wyhash(s: &str) -> (r: u64)
    ensures
        r == text_hash(s@),
{
    let b = s.as_bytes();
    let mut h: u64 = b.len() as u64;
    let mut i: usize = 0;
    while i < b.len()
        invariant
            i <= b@.len(),
            h == hash_of(b@, i as nat),
        decreases b@.len() - i,
    {
        let x: u64 = h ^ (b[i] as u64).wrapping_mul(
            0x9e3779b97f4a7c15u64.wrapping_add(i as u64),
        );
        h = (x << 31) | (x >> 33);
        i = i + 1;
    }
    h
}

/// A variable as one text.
pub open spec fn assignment(v: env_cache::VarText) -> Seq<char> {
    v.0 + "="@ + v.1
}

/// The fingerprint of an environment: the hashes of its variables combined so
/// that their order does not matter.
pub open spec fn fingerprint_of(vars: Seq<env_cache::VarText>) -> u64
    decreases vars.len(),
{
    if vars.len() == 0 {
        0
    } else if handshake::is_noise(vars.last().0) {
        fingerprint_of(vars.drop_last())
    } else {
        fingerprint_of(vars.drop_last()) ^ text_hash(assignment(vars.last()))
    }
}

/// Reads an environment. `fits_count` says whether the number of variables
/// can be announced.
pub fn scan_env(vars: &[EnvVar]) -> (r: EnvInfo)
    requires
        handshake::sent_vars(env_cache::var_views(vars@)).len() <= 0xffff,
    ensures
        ({
            let all = env_cache::var_views(vars@);
            &&& r.fingerprint == fingerprint_of(all)
            &&& r.count == handshake::sent_vars(all).len()
            &&& text::opt_view(r.server_path) == env_cache::last_var(all, "JULIA_DAEMON_SERVER"@)
            &&& text::opt_view(r.runtime_dir) == env_cache::last_var(all, "JULIA_DAEMON_RUNTIME"@)
            &&& text::opt_view(r.xdg_runtime_dir) == env_cache::last_var(all, "XDG_RUNTIME_DIR"@)
            &&& text::opt_view(r.home) == env_cache::last_var(all, "HOME"@)
        }),
{
    let ghost all = env_cache::var_views(vars@);
    let mut info = EnvInfo {
        fingerprint: 0,
        count: 0,
        server_path: None,
        runtime_dir: None,
        xdg_runtime_dir: None,
        home: None,
    };
    let mut i: usize = 0;
    proof {
        lemma_key_names();
    }
    assert(all.take(0) =~= Seq::empty());
    while i < vars.len()
        invariant
            i <= vars@.len(),
            all == env_cache::var_views(vars@),
            handshake::sent_vars(all).len() <= 0xffff,
            info.fingerprint == fingerprint_of(all.take(i as int)),
            info.count == handshake::sent_vars(all.take(i as int)).len(),
            text::opt_view(info.server_path) == env_cache::last_var(
                all.take(i as int),
                "JULIA_DAEMON_SERVER"@,
            ),
            text::opt_view(info.runtime_dir) == env_cache::last_var(
                all.take(i as int),
                "JULIA_DAEMON_RUNTIME"@,
            ),
            text::opt_view(info.xdg_runtime_dir) == env_cache::last_var(
                all.take(i as int),
                "XDG_RUNTIME_DIR"@,
            ),
            text::opt_view(info.home) == env_cache::last_var(all.take(i as int), "HOME"@),
            !handshake::is_noise("JULIA_DAEMON_SERVER"@),
            !handshake::is_noise("JULIA_DAEMON_RUNTIME"@),
            !handshake::is_noise("XDG_RUNTIME_DIR"@),
            !handshake::is_noise("HOME"@),
            "JULIA_DAEMON_SERVER"@ != "JULIA_DAEMON_RUNTIME"@,
            "JULIA_DAEMON_SERVER"@ != "XDG_RUNTIME_DIR"@,
            "JULIA_DAEMON_SERVER"@ != "HOME"@,
            "JULIA_DAEMON_RUNTIME"@ != "XDG_RUNTIME_DIR"@,
            "JULIA_DAEMON_RUNTIME"@ != "HOME"@,
            "XDG_RUNTIME_DIR"@ != "HOME"@,
        decreases vars@.len() - i,
    {
        let key = vars[i].key.as_str();
        let value = vars[i].value.as_str();
        proof {
            assert(all.take(i + 1).drop_last() =~= all.take(i as int));
            assert(all.take(i + 1).last() == (key@, value@));
            lemma_sent_grows(all, i + 1);
        }
        if !starts_with(key, "HYPERFINE_") {
            info.count = info.count + 1;
            let kv = text::join3(key, "=", value);
            info.fingerprint = info.fingerprint ^ wyhash(kv.as_str());
            if same(key, "JULIA_DAEMON_SERVER") {
                info.server_path = Some(owned(value));
            } else if same(key, "JULIA_DAEMON_RUNTIME") {
                info.runtime_dir = Some(owned(value));
            } else if same(key, "XDG_RUNTIME_DIR") {
                info.xdg_runtime_dir = Some(owned(value));
            } else if same(key, "HOME") {
                info.home = Some(owned(value));
            }
        }
        i = i + 1;
    }
    assert(all.take(i as int) =~= all);
    info
}

/// The names that a client looks for are four, and none of them is noise.
proof fn lemma_key_names()
    ensures
        !handshake::is_noise("JULIA_DAEMON_SERVER"@),
        !handshake::is_noise("JULIA_DAEMON_RUNTIME"@),
        !handshake::is_noise("XDG_RUNTIME_DIR"@),
        !handshake::is_noise("HOME"@),
        "JULIA_DAEMON_SERVER"@ != "JULIA_DAEMON_RUNTIME"@,
        "JULIA_DAEMON_SERVER"@ != "XDG_RUNTIME_DIR"@,
        "JULIA_DAEMON_SERVER"@ != "HOME"@,
        "JULIA_DAEMON_RUNTIME"@ != "XDG_RUNTIME_DIR"@,
        "JULIA_DAEMON_RUNTIME"@ != "HOME"@,
        "XDG_RUNTIME_DIR"@ != "HOME"@,
{
    reveal_strlit("HYPERFINE_");
    reveal_strlit("JULIA_DAEMON_SERVER");
    reveal_strlit("JULIA_DAEMON_RUNTIME");
    reveal_strlit("XDG_RUNTIME_DIR");
    reveal_strlit("HOME");
    assert("HYPERFINE_"@[1] == 'Y');
    assert("JULIA_DAEMON_SERVER"@[0] == 'J');
    assert("JULIA_DAEMON_RUNTIME"@[0] == 'J');
    assert("XDG_RUNTIME_DIR"@[0] == 'X');
    assert("HOME"@[0] == 'H');
}

/// More variables never mean fewer that are sent.
proof fn lemma_sent_grows(vars: Seq<env_cache::VarText>, n: int)
    requires
        0 <= n <= vars.len(),
    ensures
        handshake::sent_vars(vars.take(n)).len() <= handshake::sent_vars(vars).len(),
    decreases vars.len(),
{
    if n == vars.len() {
        assert(vars.take(n) =~= vars);
    } else {
        lemma_sent_grows(vars.drop_last(), n);
        assert(vars.drop_last().take(n) =~= vars.take(n));
    }
}

/// Whether the number of variables that are sent can be announced.
pub fn fits_count(vars: &[EnvVar]) -> (r: bool)
    ensures
        r == (handshake::sent_vars(env_cache::var_views(vars@)).len() <= 0xffff),
{
    let ghost all = env_cache::var_views(vars@);
    let mut n: usize = 0;
    let mut i: usize = 0;
    assert(all.take(0) =~= Seq::empty());
    while i < vars.len()
        invariant
            n <= i <= vars@.len(),
            all == env_cache::var_views(vars@),
            n == handshake::sent_vars(all.take(i as int)).len(),
        decreases vars@.len() - i,
    {
        assert(all.take(i + 1).drop_last() =~= all.take(i as int));
        if !starts_with(vars[i].key.as_str(), "HYPERFINE_") {
            n = n + 1;
        }
        i = i + 1;
    }
    assert(all.take(i as int) =~= all);
    n <= 0xffff
}

/// The fingerprint of two lists of variables, one behind the other.
proof fn lemma_fingerprint_of_concat(
    a: Seq<env_cache::VarText>,
    b: Seq<env_cache::VarText>,
)
    ensures
        fingerprint_of(a + b) == fingerprint_of(a) ^ fingerprint_of(b),
    decreases b.len(),
{
    if b.len() == 0 {
        assert(a + b =~= a);
        let x = fingerprint_of(a);
        assert(x ^ 0 == x) by (bit_vector);
    } else {
        lemma_fingerprint_of_concat(a, b.drop_last());
        assert((a + b).drop_last() =~= a + b.drop_last());
        let (x, y, z) = (
            fingerprint_of(a),
            fingerprint_of(b.drop_last()),
            text_hash(assignment(b.last())),
        );
        assert((x ^ y) ^ z == x ^ (y ^ z)) by (bit_vector);
    }
}

/// The order of the variables does not matter: two environments with the same
/// variables have the same fingerprint.
pub proof fn law_fingerprint_ignores_order(
    a: Seq<env_cache::VarText>,
    b: Seq<env_cache::VarText>,
)
    requires
        a.to_multiset() == b.to_multiset(),
    ensures
        fingerprint_of(a) == fingerprint_of(b),
    decreases a.len(),
{
    broadcast use vstd::seq_lib::group_to_multiset_ensures;

    assert(a.to_multiset().len() == a.len());
    assert(b.to_multiset().len() == b.len());
    if a.len() > 0 {
        let v = a.last();
        assert(a.to_multiset().contains(v)) by {
            assert(a[a.len() - 1] == v);
            assert(a.contains(v));
        }
        assert(b.contains(v));
        let j = b.index_of(v);
        let rest = b.remove(j);
        let front = a.drop_last();
        assert(a.remove(a.len() - 1) =~= front);
        assert(front.to_multiset() =~= rest.to_multiset());
        law_fingerprint_ignores_order(front, rest);
        let (b1, b2) = (b.take(j), b.skip(j + 1));
        let one = seq![v];
        assert(rest =~= b1 + b2);
        assert(b =~= (b1 + one) + b2);
        assert(a =~= front + one);
        lemma_fingerprint_of_concat(front, one);
        lemma_fingerprint_of_concat(b1, b2);
        lemma_fingerprint_of_concat(b1, one);
        lemma_fingerprint_of_concat(b1 + one, b2);
        let (x, y, z) = (fingerprint_of(b1), fingerprint_of(b2), fingerprint_of(one));
        assert((x ^ y) ^ z == (x ^ z) ^ y) by (bit_vector);
    }
}

/// Variables that are noise do not matter either.
pub proof fn law_fingerprint_ignores_noise(vars: Seq<env_cache::VarText>)
    ensures
        fingerprint_of(vars) == fingerprint_of(handshake::sent_vars(vars)),
    decreases vars.len(),
{
    if vars.len() > 0 {
        law_fingerprint_ignores_noise(vars.drop_last());
        let sent = handshake::sent_vars(vars);
        if !handshake::is_noise(vars.last().0) {
            assert(sent.drop_last() =~= handshake::sent_vars(vars.drop_last()));
        }
    }
}

// ---------------------------------------------------------------------
// The command line
// ---------------------------------------------------------------------

/// The address that the arguments from index `i` on give, and the indices of
/// the arguments that give it.
pub open spec fn address_from(argv: Seq<Seq<char>>, i: int) -> (Option<Seq<char>>, Seq<int>)
    decreases argv.len() - i,
{
    if i < 0 || i >= argv.len() || argv[i] == "--"@ {
        (None, Seq::empty())
    } else if "--address="@.is_prefix_of(argv[i]) {
        (Some(argv[i].skip(10)), seq![i])
    } else if argv[i].len() > 2 && "-a"@.is_prefix_of(argv[i]) {
        (Some(argv[i].skip(2)), seq![i])
    } else if (argv[i] == "--address"@ || argv[i] == "-a"@) && i + 1 < argv.len() {
        (Some(argv[i + 1]), seq![i, i + 1])
    } else {
        address_from(argv, i + 1)
    }
}

pub open spec fn as_ints(v: Seq<usize>) -> Seq<int> {
    Seq::new(v.len(), |i: int| v[i] as int)
}

/// The address that a command line gives, and the indices of the arguments
/// that are for the client alone.
pub fn extract_address_arg(argv: &[String]) -> (r: (Option<String>, Vec<usize>))
    ensures
        (text::opt_view(r.0), as_ints(r.1@)) == address_from(text::views(argv@), 1),
        r.1@.no_duplicates(),
        forall|k: int| 0 <= k < r.1@.len() ==> r.1@[k] < argv@.len(),
{
    let ghost all = text::views(argv@);
    let mut skipped: Vec<usize> = Vec::new();
    assert(as_ints(skipped@) =~= Seq::empty());
    proof {
        reveal_strlit("--address=");
        reveal_strlit("-a");
    }
    let mut i: usize = 1;
    while i < argv.len()
        invariant
            1 <= i,
            all == text::views(argv@),
            skipped@.len() == 0,
            as_ints(skipped@) == Seq::<int>::empty(),
            "--address="@.len() == 10,
            "-a"@.len() == 2,
            address_from(all, 1) == address_from(all, i as int),
        decreases argv@.len() - i,
    {
        let arg = argv[i].as_str();
        if same(arg, "--") {
            return (None, skipped);
        }
        if starts_with(arg, "--address=") {
            skipped.push(i);
            assert(as_ints(skipped@) =~= seq![i as int]);
            return (Some(owned(skip(arg, 10))), skipped);
        }
        if arg.unicode_len() > 2 && starts_with(arg, "-a") {
            skipped.push(i);
            assert(as_ints(skipped@) =~= seq![i as int]);
            return (Some(owned(skip(arg, 2))), skipped);
        }
        if (same(arg, "--address") || same(arg, "-a")) && i < argv.len() - 1 {
            skipped.push(i);
            skipped.push(i + 1);
            assert(as_ints(skipped@) =~= seq![i as int, i + 1]);
            return (Some(owned(argv[i + 1].as_str())), skipped);
        }
        i = i + 1;
    }
    (None, skipped)
}

/// Whether the command line asks for a shared session.
pub fn extract_sync_arg(argv: &[String]) -> (r: bool)
    ensures
        r == exists|i: int| 1 <= i < argv@.len() && (#[trigger] argv@[i])@ == "--sync"@,
{
    let mut i: usize = 1;
    while i < argv.len()
        invariant
            1 <= i,
            forall|j: int| 1 <= j < i && j < argv@.len() ==> (#[trigger] argv@[j])@ != "--sync"@,
        decreases argv@.len() - i,
    {
        if same(argv[i].as_str(), "--sync") {
            return true;
        }
        i = i + 1;
    }
    false
}

} // verus!
