use vstd::prelude::*;

verus! {

use vstd::string::StrSliceExecFns;
use vstd::string::StringExecFns;
use vstd::utf8::encode_utf8;
use crate::hashing::digest_hex;
use crate::hashing::hash_hex;
use crate::hashing::hash_hex_short;
use crate::manager::CacheManager;
use crate::strutil::concat2;
use crate::strutil::starts_with_seq;
use crate::strutil::str_eq;
use crate::strutil::str_skip;
use crate::strutil::str_split;
use crate::strutil::str_starts_with;

/// The byte stream obtained by encoding each part as UTF-8 and
/// concatenating, in order; this is what the hash primitive consumes when a
/// fingerprint is built from textual parts.
pub open spec fn utf8_cat(parts: Seq<Seq<char>>) -> Seq<u8>
    decreases parts.len(),
{
    if parts.len() == 0 {
        Seq::empty()
    } else {
        encode_utf8(parts[0]) + utf8_cat(parts.drop_first())
    }
}

pub proof fn lemma_utf8_cat_cons(p: Seq<char>, rest: Seq<Seq<char>>)
    ensures
        utf8_cat(seq![p] + rest) == encode_utf8(p) + utf8_cat(rest),
{
    let whole = seq![p] + rest;
    assert(whole[0] == p);
    assert(whole.drop_first() =~= rest);
}

/// Appends the UTF-8 bytes of `s` to `buf`.
fn push_str_bytes(buf: &mut Vec<u8>, s: &str)
    ensures
        final(buf)@ == old(buf)@ + encode_utf8(s@),
{
    buf.extend_from_slice(s.as_bytes());
}

/// The feature-selection parts that a scan of the arguments from position
/// `i` onward feeds into the features hash: the value of each `--features`
/// flag in either spelling, and the two valueless feature flags themselves.
pub open spec fn features_parts(args: Seq<Seq<char>>, i: int) -> Seq<Seq<char>>
    decreases args.len() - i
        when 0 <= i <= args.len()
{
    if i >= args.len() {
        Seq::empty()
    } else {
        let a = args[i];
        let rest = features_parts(args, i + 1);
        if a == "--features"@ {
            if i + 1 < args.len() {
                seq![args[i + 1]] + rest
            } else {
                rest
            }
        } else if starts_with_seq(a, "--features="@) {
            seq![a.skip("--features="@.len() as int)] + rest
        } else if a == "--all-features"@ {
            seq![a] + rest
        } else if a == "--no-default-features"@ {
            seq![a] + rest
        } else {
            rest
        }
    }
}

/// Looks a name up in an association list of environment pairs; the first
/// binding wins.
pub open spec fn env_lookup(env: Seq<(Seq<char>, Seq<char>)>, name: Seq<char>) -> Option<Seq<char>>
    decreases env.len(),
{
    if env.len() == 0 {
        None
    } else if env[0].0 == name {
        Some(env[0].1)
    } else {
        env_lookup(env.drop_first(), name)
    }
}

/// The parts fed into the environment hash: for each listed name that is
/// bound in the environment, the name and then its value; unbound names
/// contribute nothing.
pub open spec fn env_parts(env: Seq<(Seq<char>, Seq<char>)>, names: Seq<Seq<char>>) -> Seq<
    Seq<char>,
>
    decreases names.len(),
{
    if names.len() == 0 {
        Seq::empty()
    } else {
        let rest = env_parts(env, names.drop_first());
        match env_lookup(env, names[0]) {
            Some(v) => seq![names[0], v] + rest,
            None => rest,
        }
    }
}

/// The closed list of environment variables that can affect build output,
/// in the order they are fed into the environment hash.
pub open spec fn build_env_names() -> Seq<Seq<char>> {
    seq![
        "RUSTFLAGS"@,
        "RUSTDOCFLAGS"@,
        "CARGO_TARGET_DIR"@,
        "CARGO_HOME"@,
        "CARGO_NET_OFFLINE"@,
        "CARGO_BUILD_JOBS"@,
        "CARGO_BUILD_TARGET"@,
        "CARGO_BUILD_RUSTFLAGS"@,
        "CARGO_INCREMENTAL"@,
        "CARGO_PROFILE_DEV_DEBUG"@,
        "CARGO_PROFILE_RELEASE_DEBUG"@,
        "CARGO_PROFILE_RELEASE_OPT_LEVEL"@,
        "CARGO_PROFILE_RELEASE_LTO"@,
        "CC"@,
        "CXX"@,
        "AR"@,
        "LINKER"@,
    ]
}

/// The environment variables that can affect build output, as owned
/// strings, in hash-feeding order.
pub fn env_vars_that_affect_build() -> (r: Vec<String>)
    ensures
        r.deep_view() == build_env_names(),
{
    let mut v: Vec<String> = Vec::new();
    v.push("RUSTFLAGS".to_owned());
    v.push("RUSTDOCFLAGS".to_owned());
    v.push("CARGO_TARGET_DIR".to_owned());
    v.push("CARGO_HOME".to_owned());
    v.push("CARGO_NET_OFFLINE".to_owned());
    v.push("CARGO_BUILD_JOBS".to_owned());
    v.push("CARGO_BUILD_TARGET".to_owned());
    v.push("CARGO_BUILD_RUSTFLAGS".to_owned());
    v.push("CARGO_INCREMENTAL".to_owned());
    v.push("CARGO_PROFILE_DEV_DEBUG".to_owned());
    v.push("CARGO_PROFILE_RELEASE_DEBUG".to_owned());
    v.push("CARGO_PROFILE_RELEASE_OPT_LEVEL".to_owned());
    v.push("CARGO_PROFILE_RELEASE_LTO".to_owned());
    v.push("CC".to_owned());
    v.push("CXX".to_owned());
    v.push("AR".to_owned());
    v.push("LINKER".to_owned());
    proof {
        assert(v.deep_view() =~= build_env_names());
    }
    v
}

/// The pairwise view of an environment given as owned (name, value) pairs.
pub open spec fn env_view(env: Seq<(String, String)>) -> Seq<(Seq<char>, Seq<char>)> {
    Seq::new(env.len(), |i: int| (env[i].0@, env[i].1@))
}

/// Joins textual parts with single spaces, the way an argument list is
/// rendered into one command line.
pub open spec fn join_spaced(parts: Seq<Seq<char>>) -> Seq<char>
    decreases parts.len(),
{
    if parts.len() == 0 {
        Seq::empty()
    } else if parts.len() == 1 {
        parts[0]
    } else {
        parts[0] + seq![' '] + join_spaced(parts.drop_first())
    }
}

proof fn lemma_join_spaced_push(parts: Seq<Seq<char>>, x: Seq<char>)
    requires
        parts.len() >= 1,
    ensures
        join_spaced(parts.push(x)) == join_spaced(parts) + seq![' '] + x,
    decreases parts.len(),
{
    if parts.len() == 1 {
        assert(parts.push(x)[0] == parts[0]);
        assert(parts.push(x).drop_first() =~= seq![x]);
        assert(join_spaced(seq![x]) == x);
    } else {
        lemma_join_spaced_push(parts.drop_first(), x);
        assert(parts.push(x).drop_first() =~= parts.drop_first().push(x));
        assert(parts.push(x)[0] == parts[0]);
        assert((parts[0] + seq![' '] + (join_spaced(parts.drop_first()) + seq![' '] + x)) =~= (
        parts[0] + seq![' '] + join_spaced(parts.drop_first()) + seq![' '] + x));
    }
}

/// The parts fed into the command hash: the subcommand, the arguments
/// joined by single spaces, and the working directory when there is one.
pub open spec fn command_parts(
    sub: Seq<char>,
    args: Seq<Seq<char>>,
    cwd: Option<Seq<char>>,
) -> Seq<Seq<char>> {
    match cwd {
        Some(c) => seq![sub, join_spaced(args), c],
        None => seq![sub, join_spaced(args)],
    }
}

/// The bytes fed into the toolchain hash: the version output of the
/// compiler, then of the build tool, each contributing nothing when the
/// tool could not be run.
pub open spec fn toolchain_input(rustc_v: Option<Seq<u8>>, cargo_v: Option<Seq<u8>>) -> Seq<u8> {
    (match rustc_v {
        Some(b) => b,
        None => Seq::empty(),
    }) + (match cargo_v {
        Some(b) => b,
        None => Seq::empty(),
    })
}

/// The hex string that stands for the lockfile: the digest of its bytes
/// when it exists, and a fixed literal when it does not.
pub open spec fn lock_hash_chars(contents: Option<Seq<u8>>) -> Seq<char> {
    match contents {
        Some(b) => digest_hex(b),
        None => "no-lock-file"@,
    }
}

/// Some argument selects the release profile: it is `--release` or begins
/// with it.
pub open spec fn spec_is_release(args: Seq<Seq<char>>) -> bool {
    exists|i: int| 0 <= i < args.len() && starts_with_seq(#[trigger] args[i], "--release"@)
}

/// The target directory that a scan of the arguments from position `i`
/// onward resolves: the first `--target-dir PATH` or `--target-dir=PATH`
/// wins; with neither, the environment's setting; with nothing, none.
pub open spec fn spec_target_dir(
    args: Seq<Seq<char>>,
    env_target: Option<Seq<char>>,
    i: int,
) -> Option<Seq<char>>
    decreases args.len() - i
        when 0 <= i <= args.len()
{
    if i >= args.len() {
        env_target
    } else if args[i] == "--target-dir"@ {
        if i + 1 < args.len() {
            Some(args[i + 1])
        } else {
            None
        }
    } else if starts_with_seq(args[i], "--target-dir="@) {
        Some(crate::strutil::split_seq(args[i], seq!['='])[1])
    } else {
        spec_target_dir(args, env_target, i + 1)
    }
}

impl CacheManager {
    /// Hashes the feature selection found in the arguments. The two
    /// spellings of `--features` feed the same bytes, so they hash alike.
    pub fn compute_features_hash(&self, args: &Vec<String>) -> (r: String)
        ensures
            r@ == digest_hex(utf8_cat(features_parts(args.deep_view(), 0))),
            r@.len() == 64,
    {
        let ghost av = args.deep_view();
        let mut buf: Vec<u8> = Vec::new();
        let mut i: usize = 0;
        proof {
            assert(av.len() == args@.len());
            assert(buf@ + utf8_cat(features_parts(av, 0)) =~= utf8_cat(features_parts(av, 0)));
        }
        while i < args.len()
            invariant
                av == args.deep_view(),
                av.len() == args@.len(),
                i <= args@.len(),
                utf8_cat(features_parts(av, 0)) == buf@ + utf8_cat(features_parts(av, i as int)),
            decreases args@.len() - i,
        {
            let ghost rest = features_parts(av, i as int + 1);
            let arg = &args[i];
            proof {
                assert(av[i as int] == args@[i as int]@);
            }
            if str_eq(arg.as_str(), "--features") {
                if i + 1 < args.len() {
                    proof {
                        assert(av[i as int + 1] == args@[i as int + 1]@);
                        lemma_utf8_cat_cons(av[i as int + 1], rest);
                    }
                    push_str_bytes(&mut buf, args[i + 1].as_str());
                }
            } else if str_starts_with(arg.as_str(), "--features=") {
                let plen = "--features=".unicode_len();
                let value = str_skip(arg.as_str(), plen);
                proof {
                    lemma_utf8_cat_cons(av[i as int].skip("--features="@.len() as int), rest);
                }
                push_str_bytes(&mut buf, value.as_str());
            } else if str_eq(arg.as_str(), "--all-features") {
                proof {
                    lemma_utf8_cat_cons(av[i as int], rest);
                }
                push_str_bytes(&mut buf, arg.as_str());
            } else if str_eq(arg.as_str(), "--no-default-features") {
                proof {
                    lemma_utf8_cat_cons(av[i as int], rest);
                }
                push_str_bytes(&mut buf, arg.as_str());
            }
            proof {
                assert(buf@ + utf8_cat(features_parts(av, i as int + 1)) =~= utf8_cat(
                    features_parts(av, 0),
                ));
            }
            i = i + 1;
        }
        hash_hex(&buf)
    }

    /// Hashes the listed environment variables that are bound, feeding each
    /// bound name and then its value, in the fixed declaration order.
    pub fn compute_env_hash(&self, env: &Vec<(String, String)>) -> (r: String)
        ensures
            r@ == digest_hex(utf8_cat(env_parts(env_view(env@), build_env_names()))),
            r@.len() == 64,
    {
        let ghost ev = env_view(env@);
        let names = env_vars_that_affect_build();
        let ghost nv = names.deep_view();
        let mut buf: Vec<u8> = Vec::new();
        let mut k: usize = 0;
        proof {
            assert(nv =~= build_env_names());
            assert(nv.skip(0) =~= nv);
            assert(buf@ + utf8_cat(env_parts(ev, nv)) =~= utf8_cat(env_parts(ev, nv)));
        }
        while k < names.len()
            invariant
                ev == env_view(env@),
                nv == names.deep_view(),
                nv == build_env_names(),
                k <= names@.len(),
                nv.len() == names@.len(),
                utf8_cat(env_parts(ev, nv)) == buf@ + utf8_cat(env_parts(ev, nv.skip(k as int))),
            decreases names@.len() - k,
        {
            let ghost tail = nv.skip(k as int);
            let ghost rest = env_parts(ev, nv.skip(k as int + 1));
            proof {
                assert(tail.len() > 0);
                assert(tail[0] == nv[k as int]);
                assert(tail.drop_first() =~= nv.skip(k as int + 1));
                assert(nv[k as int] == names@[k as int]@);
            }
            let name = &names[k];
            let looked = env_get(env, name.as_str());
            match looked {
                Some(value) => {
                    proof {
                        let parts2 = seq![nv[k as int], value@];
                        assert(env_parts(ev, tail) == parts2 + rest);
                        assert(parts2 + rest =~= seq![nv[k as int]] + (seq![value@] + rest));
                        lemma_utf8_cat_cons(nv[k as int], seq![value@] + rest);
                        lemma_utf8_cat_cons(value@, rest);
                    }
                    push_str_bytes(&mut buf, name.as_str());
                    push_str_bytes(&mut buf, value.as_str());
                },
                None => {
                },
            }
            proof {
                assert(buf@ + utf8_cat(env_parts(ev, nv.skip(k as int + 1))) =~= utf8_cat(
                    env_parts(ev, nv),
                ));
            }
            k = k + 1;
        }
        proof {
            assert(nv.skip(nv.len() as int).len() == 0);
        }
        hash_hex(&buf)
    }

    /// Hashes the subcommand, the space-joined arguments and the working
    /// directory, and keeps the first 16 hex digits.
    pub fn compute_command_hash(
        &self,
        subcommand: &str,
        args: &Vec<String>,
        cwd: &Option<String>,
    ) -> (r: String)
        ensures
            r@ == digest_hex(
                utf8_cat(command_parts(subcommand@, args.deep_view(), cwd.deep_view())),
            ).take(16),
            r@.len() == 16,
    {
        let joined = join_args_spaced(args);
        let mut buf: Vec<u8> = Vec::new();
        push_str_bytes(&mut buf, subcommand);
        push_str_bytes(&mut buf, joined.as_str());
        match cwd {
            Some(c) => {
                push_str_bytes(&mut buf, c.as_str());
                proof {
                    let parts = command_parts(subcommand@, args.deep_view(), cwd.deep_view());
                    assert(parts =~= seq![subcommand@] + (seq![joined@] + (seq![c@]
                        + Seq::<Seq<char>>::empty())));
                    lemma_utf8_cat_cons(subcommand@, seq![joined@] + (seq![c@]
                        + Seq::<Seq<char>>::empty()));
                    lemma_utf8_cat_cons(joined@, seq![c@] + Seq::<Seq<char>>::empty());
                    lemma_utf8_cat_cons(c@, Seq::<Seq<char>>::empty());
                    assert(buf@ =~= utf8_cat(parts));
                }
            },
            None => {
                proof {
                    let parts = command_parts(subcommand@, args.deep_view(), cwd.deep_view());
                    assert(parts =~= seq![subcommand@] + (seq![joined@]
                        + Seq::<Seq<char>>::empty()));
                    lemma_utf8_cat_cons(subcommand@, seq![joined@] + Seq::<Seq<char>>::empty());
                    lemma_utf8_cat_cons(joined@, Seq::<Seq<char>>::empty());
                    assert(buf@ =~= utf8_cat(parts));
                }
            },
        }
        hash_hex_short(&buf, 16)
    }

    /// Hashes the lockfile's bytes when it exists; without a lockfile the
    /// fixed literal stands in.
    pub fn compute_cargo_lock_hash(&self, lock_file: &Option<Vec<u8>>) -> (r: String)
        ensures
            r@ == lock_hash_chars(lock_file.deep_view()),
    {
        match lock_file {
            Some(content) => {
                proof {
                    assert(content.deep_view() =~= content@);
                }
                hash_hex(content)
            },
            None => "no-lock-file".to_owned(),
        }
    }

    /// Hashes the version outputs of the compiler and the build tool; a
    /// tool that could not be run contributes nothing.
    pub fn compute_toolchain_hash(
        &self,
        rustc_version: &Option<Vec<u8>>,
        cargo_version: &Option<Vec<u8>>,
    ) -> (r: String)
        ensures
            r@ == digest_hex(toolchain_input(rustc_version.deep_view(), cargo_version.deep_view())),
            r@.len() == 64,
    {
        let mut buf: Vec<u8> = Vec::new();
        match rustc_version {
            Some(b) => {
                buf.extend_from_slice(b.as_slice());
            },
            None => {
            },
        }
        match cargo_version {
            Some(b) => {
                buf.extend_from_slice(b.as_slice());
            },
            None => {
            },
        }
        proof {
            assert(buf@ =~= toolchain_input(rustc_version.deep_view(), cargo_version.deep_view()));
        }
        hash_hex(&buf)
    }

    /// The arguments select the release profile.
    pub fn is_release_build(&self, args: &Vec<String>) -> (r: bool)
        ensures
            r == spec_is_release(args.deep_view()),
    {
        let ghost av = args.deep_view();
        let mut i: usize = 0;
        while i < args.len()
            invariant
                av == args.deep_view(),
                av.len() == args@.len(),
                i <= args@.len(),
                forall|j: int| 0 <= j < i ==> !starts_with_seq(#[trigger] av[j], "--release"@),
            decreases args@.len() - i,
        {
            proof {
                assert(av[i as int] == args@[i as int]@);
            }
            if str_starts_with(args[i].as_str(), "--release") {
                return true;
            }
            i = i + 1;
        }
        false
    }

    /// Resolves the target directory from the arguments, falling back to
    /// the environment's setting.
    pub fn get_target_dir(&self, args: &Vec<String>, env_target_dir: &Option<String>) -> (r:
        Option<String>)
        ensures
            r.deep_view() == spec_target_dir(args.deep_view(), env_target_dir.deep_view(), 0),
    {
        let ghost av = args.deep_view();
        let ghost et = env_target_dir.deep_view();
        let mut i: usize = 0;
        while i < args.len()
            invariant
                av == args.deep_view(),
                et == env_target_dir.deep_view(),
                av.len() == args@.len(),
                i <= args@.len(),
                spec_target_dir(av, et, 0) == spec_target_dir(av, et, i as int),
            decreases args@.len() - i,
        {
            proof {
                assert(av[i as int] == args@[i as int]@);
            }
            let arg = &args[i];
            if str_eq(arg.as_str(), "--target-dir") {
                if i + 1 < args.len() {
                    proof {
                        assert(av[i as int + 1] == args@[i as int + 1]@);
                    }
                    return Some(args[i + 1].clone());
                } else {
                    return None;
                }
            }
            if str_starts_with(arg.as_str(), "--target-dir=") {
                let mut seps: Vec<char> = Vec::new();
                seps.push('=');
                proof {
                    assert(seps@ =~= seq!['=']);
                }
                let parts = str_split(arg.as_str(), &seps);
                proof {
                    lemma_split_seq_len(av[i as int], seq!['=']);
                    assert(parts.deep_view().len() == parts@.len());
                    assert(parts@[1]@ == parts.deep_view()[1]);
                }
                return Some(parts[1].clone());
            }
            i = i + 1;
        }
        match env_target_dir {
            Some(t) => Some(t.clone()),
            None => None,
        }
    }
}

/// A string that starts with `--target-dir=` splits at `=` into at least
/// two segments.
proof fn lemma_split_seq_len(s: Seq<char>, seps: Seq<char>)
    requires
        starts_with_seq(s, "--target-dir="@),
        seps == seq!['='],
    ensures
        crate::strutil::split_seq(s, seps).len() >= 2,
{
    reveal_strlit("--target-dir=");
    let p = "--target-dir="@;
    assert(p.len() == 13);
    assert(s.take(13) == p);
    assert(s[12] == s.take(13)[12]);
    assert(p[12] == '=');
    assert(seps[0] == '=');
    lemma_split_accum_sep(s, seps, Seq::empty(), 12);
}

/// If some character of `s` is a separator, splitting yields at least two
/// segments.
proof fn lemma_split_accum_sep(s: Seq<char>, seps: Seq<char>, cur: Seq<char>, i: int)
    requires
        0 <= i < s.len(),
        seps.contains(s[i]),
    ensures
        crate::strutil::split_accum(s, seps, cur).len() >= 2,
    decreases s.len(),
{
    if seps.contains(s[0]) {
        assert(crate::strutil::split_accum(s, seps, cur).len() == 1 + crate::strutil::split_accum(
            s.drop_first(),
            seps,
            Seq::empty(),
        ).len());
        crate::strutil::lemma_split_accum_at_least_one(s.drop_first(), seps, Seq::empty());
    } else {
        assert(i != 0);
        assert(s.drop_first()[i - 1] == s[i]);
        lemma_split_accum_sep(s.drop_first(), seps, cur.push(s[0]), i - 1);
    }
}

/// Looks a name up among owned environment pairs; the first binding wins.
pub fn env_get(env: &Vec<(String, String)>, name: &str) -> (r: Option<String>)
    ensures
        r.deep_view() == env_lookup(env_view(env@), name@),
{
    let ghost ev = env_view(env@);
    let mut i: usize = 0;
    proof {
        assert(ev.skip(0) =~= ev);
    }
    while i < env.len()
        invariant
            ev == env_view(env@),
            ev.len() == env@.len(),
            i <= env@.len(),
            env_lookup(ev, name@) == env_lookup(ev.skip(i as int), name@),
        decreases env@.len() - i,
    {
        proof {
            let tail = ev.skip(i as int);
            assert(tail.len() > 0);
            assert(tail[0] == ev[i as int]);
            assert(tail.drop_first() =~= ev.skip(i as int + 1));
            assert(ev[i as int] == (env@[i as int].0@, env@[i as int].1@));
        }
        if str_eq(env[i].0.as_str(), name) {
            return Some(env[i].1.clone());
        }
        i = i + 1;
    }
    proof {
        assert(ev.skip(ev.len() as int).len() == 0);
    }
    None
}

/// Joins the arguments with single spaces, the way one command line is
/// rendered from them.
pub fn join_args_spaced(args: &Vec<String>) -> (r: String)
    ensures
        r@ == join_spaced(args.deep_view()),
{
    let ghost av = args.deep_view();
    if args.len() == 0 {
        let r = String::new();
        return r;
    }
    let mut s: String = args[0].clone();
    let mut k: usize = 1;
    proof {
        assert(av.take(1) =~= seq![av[0]]);
        assert(av[0] == args@[0]@);
        assert(join_spaced(seq![av[0]]) == av[0]);
    }
    while k < args.len()
        invariant
            av == args.deep_view(),
            av.len() == args@.len(),
            1 <= k <= args@.len(),
            s@ == join_spaced(av.take(k as int)),
        decreases args@.len() - k,
    {
        proof {
            assert(av[k as int] == args@[k as int]@);
            lemma_join_spaced_push(av.take(k as int), av[k as int]);
            assert(av.take(k as int).push(av[k as int]) =~= av.take(k as int + 1));
        }
        s.append(" ");
        s.append(args[k].as_str());
        proof {
            reveal_strlit(" ");
            assert(" "@ =~= seq![' ']);
            assert(s@ =~= join_spaced(av.take(k as int + 1)));
        }
        k = k + 1;
    }
    proof {
        assert(av.take(av.len() as int) =~= av);
    }
    s
}

/// The listed environment variables alone decide the environment hash: two
/// environments that bind each listed name the same way feed the same bytes
/// into it, whatever else they bind.
pub proof fn lemma_env_parts_agree(
    e1: Seq<(Seq<char>, Seq<char>)>,
    e2: Seq<(Seq<char>, Seq<char>)>,
    names: Seq<Seq<char>>,
)
    requires
        forall|k: int| 0 <= k < names.len() ==> env_lookup(e1, #[trigger] names[k]) == env_lookup(
            e2,
            names[k],
        ),
    ensures
        env_parts(e1, names) == env_parts(e2, names),
    decreases names.len(),
{
    if names.len() > 0 {
        assert(forall|k: int|
            0 <= k < names.drop_first().len() ==> #[trigger] names.drop_first()[k] == names[k + 1]);
        lemma_env_parts_agree(e1, e2, names.drop_first());
        assert(env_lookup(e1, names[0]) == env_lookup(e2, names[0]));
    }
}

/// A value is an ordinary feature selection, not itself one of the flag
/// spellings that the scan recognizes.
pub open spec fn plain_feature_value(value: Seq<char>) -> bool {
    &&& value != "--features"@
    &&& !starts_with_seq(value, "--features="@)
    &&& value != "--all-features"@
    &&& value != "--no-default-features"@
}

/// The two spellings of a feature selection feed identical parts into the
/// features hash: `--features VALUE` and `--features=VALUE` are
/// indistinguishable to it, so their hashes are equal. A value that is
/// itself spelled like one of the recognized flags is scanned twice by the
/// two-argument form and is left out here.
pub proof fn lemma_features_syntax_equivalence(value: Seq<char>)
    requires
        plain_feature_value(value),
    ensures
        features_parts(seq!["--features"@, value], 0) == features_parts(
            seq!["--features="@ + value],
            0,
        ),
{
    let two = seq!["--features"@, value];
    let one = seq!["--features="@ + value];
    reveal_strlit("--features");
    reveal_strlit("--features=");
    assert(two[0] == "--features"@);
    assert(features_parts(two, 2) == Seq::<Seq<char>>::empty());
    assert(two[1] == value);
    assert(features_parts(two, 1) == Seq::<Seq<char>>::empty());
    assert(features_parts(two, 0) =~= seq![value]);
    let a = one[0];
    assert(a == "--features="@ + value);
    assert(a.len() == "--features="@.len() + value.len());
    assert(a != "--features"@) by {
        assert(a.len() >= 11);
        assert("--features"@.len() == 10);
    }
    assert(starts_with_seq(a, "--features="@)) by {
        assert(a.take("--features="@.len() as int) =~= "--features="@);
    }
    assert(a.skip("--features="@.len() as int) =~= value);
    assert(features_parts(one, 1) == Seq::<Seq<char>>::empty());
    assert(features_parts(one, 0) =~= seq![value]);
}

/// The two spellings hash alike: `--features VALUE` and `--features=VALUE`
/// produce the same features hash for any ordinary value.
pub proof fn lemma_features_hash_syntax_equivalence(value: Seq<char>)
    requires
        plain_feature_value(value),
    ensures
        crate::hashing::digest_hex(utf8_cat(features_parts(seq!["--features"@, value], 0)))
            == crate::hashing::digest_hex(utf8_cat(features_parts(seq!["--features="@ + value], 0))),
{
    lemma_features_syntax_equivalence(value);
}

/// Only the listed environment variables reach the environment hash: two
/// environments that bind each listed name alike produce the same hash,
/// whatever else they bind.
pub proof fn lemma_env_hash_ignores_unlisted(
    e1: Seq<(Seq<char>, Seq<char>)>,
    e2: Seq<(Seq<char>, Seq<char>)>,
)
    requires
        forall|k: int|
            0 <= k < build_env_names().len() ==> env_lookup(e1, #[trigger] build_env_names()[k])
                == env_lookup(e2, build_env_names()[k]),
    ensures
        crate::hashing::digest_hex(utf8_cat(env_parts(e1, build_env_names())))
            == crate::hashing::digest_hex(utf8_cat(env_parts(e2, build_env_names()))),
{
    lemma_env_parts_agree(e1, e2, build_env_names());
}

} // verus!
