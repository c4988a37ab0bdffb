use vstd::prelude::*;

verus! {

use vstd::string::StrSliceExecFns;
use vstd::utf8::encode_utf8;
use crate::fingerprint::utf8_cat;
use crate::hashing::digest_hex;
use crate::hashing::hash_hex;
use crate::manager::CacheManager;
use crate::strutil::split_seq;
use crate::strutil::str_contains;
use crate::strutil::str_ends_with;
use crate::strutil::str_skip;
use crate::strutil::str_split;
use crate::strutil::str_trim;
use crate::strutil::trim_seq;

/// Everything the repository probes observed about one package's sources,
/// as plain values; hashing them is pure and deterministic.
#[derive(Debug, Clone)]
pub struct GitSourceData {
    /// Output of the tracked-tree listing; this strategy applies only when
    /// it is non-empty
    pub ls_tree: String,
    /// Output of the working-tree status in porcelain form
    pub status: String,
    /// The modified files that still existed, in status order: full path
    /// and raw bytes
    pub modified_files: Vec<(String, Vec<u8>)>,
    /// Output of the submodule status, when it was queried successfully
    pub submodule_status: Option<String>,
    /// Content of the sparse-checkout file, when sparse checkout is on
    pub sparse_file: Option<String>,
    /// The clone is shallow
    pub is_shallow: bool,
    /// Bytes of the shallow file, when it could be read
    pub shallow_bytes: Option<Vec<u8>>,
    /// The large-file extension is active
    pub has_lfs: bool,
}

/// `p` is a prefix of the byte string `s`.
pub open spec fn starts_with_bytes(s: Seq<u8>, p: Seq<u8>) -> bool {
    p.len() <= s.len() && s.take(p.len() as int) == p
}

/// Splits a byte string at every separator byte, keeping empty segments.
pub open spec fn split_bytes_accum(s: Seq<u8>, sep: u8, cur: Seq<u8>) -> Seq<Seq<u8>>
    decreases s.len(),
{
    if s.len() == 0 {
        seq![cur]
    } else if s[0] == sep {
        seq![cur] + split_bytes_accum(s.drop_first(), sep, Seq::empty())
    } else {
        split_bytes_accum(s.drop_first(), sep, cur.push(s[0]))
    }
}

pub open spec fn split_bytes(s: Seq<u8>, sep: u8) -> Seq<Seq<u8>> {
    split_bytes_accum(s, sep, Seq::empty())
}

/// The bytes treated as blank when an embedded field is trimmed.
pub open spec fn is_blank_byte(b: u8) -> bool {
    b == 32 || b == 9 || b == 13 || b == 10
}

pub open spec fn trim_bytes_front(s: Seq<u8>) -> Seq<u8>
    decreases s.len(),
{
    if s.len() > 0 && is_blank_byte(s[0]) {
        trim_bytes_front(s.drop_first())
    } else {
        s
    }
}

pub open spec fn trim_bytes_back(s: Seq<u8>) -> Seq<u8>
    decreases s.len(),
{
    if s.len() > 0 && is_blank_byte(s.last()) {
        trim_bytes_back(s.drop_last())
    } else {
        s
    }
}

/// A byte string with blank bytes removed from both ends.
pub open spec fn trim_bytes_seq(s: Seq<u8>) -> Seq<u8> {
    trim_bytes_back(trim_bytes_front(s))
}

/// The header that every large-file pointer file begins with.
pub open spec fn lfs_header_bytes() -> Seq<u8> {
    encode_utf8("version https://git-lfs.github.com/spec/"@)
}

/// The prefix of the pointer line that carries the object id.
pub open spec fn lfs_oid_prefix_bytes() -> Seq<u8> {
    encode_utf8("oid sha256:"@)
}

/// The content is a large-file pointer: it begins with the canonical
/// pointer header.
pub open spec fn is_lfs_pointer(content: Seq<u8>) -> bool {
    starts_with_bytes(content, lfs_header_bytes())
}

/// The object id carried by the first line that begins with the oid
/// prefix, trimmed, if any line does.
pub open spec fn oid_from_lines(lines: Seq<Seq<u8>>) -> Option<Seq<u8>>
    decreases lines.len(),
{
    if lines.len() == 0 {
        None
    } else if starts_with_bytes(lines[0], lfs_oid_prefix_bytes()) {
        Some(trim_bytes_seq(lines[0].skip(lfs_oid_prefix_bytes().len() as int)))
    } else {
        oid_from_lines(lines.drop_first())
    }
}

pub open spec fn lfs_pointer_oid(content: Seq<u8>) -> Option<Seq<u8>> {
    oid_from_lines(split_bytes(content, 10))
}

/// What one modified file feeds into the source hash: for a large-file
/// pointer under the extension, a tag and the object id; otherwise the
/// path and the raw bytes.
pub open spec fn file_part(path: Seq<char>, content: Seq<u8>, has_lfs: bool) -> Seq<u8> {
    if has_lfs && is_lfs_pointer(content) && lfs_pointer_oid(content) is Some {
        encode_utf8("LFS:"@) + lfs_pointer_oid(content)->0
    } else {
        encode_utf8(path) + content
    }
}

/// What a list of modified files feeds into the source hash, in order.
pub open spec fn files_input(files: Seq<(Seq<char>, Seq<u8>)>, has_lfs: bool) -> Seq<u8>
    decreases files.len(),
{
    if files.len() == 0 {
        Seq::empty()
    } else {
        file_part(files[0].0, files[0].1, has_lfs) + files_input(files.drop_first(), has_lfs)
    }
}

/// The non-empty, non-comment sparse-checkout patterns, trimmed, in file
/// order.
pub open spec fn sparse_patterns_of(lines: Seq<Seq<char>>) -> Seq<Seq<char>>
    decreases lines.len(),
{
    if lines.len() == 0 {
        Seq::empty()
    } else {
        let t = trim_seq(lines[0]);
        (if t.len() > 0 && t[0] != '#' {
            seq![t]
        } else {
            Seq::empty()
        }) + sparse_patterns_of(lines.drop_first())
    }
}

/// The paths named by the porcelain status: everything after the first
/// three characters of each line that is longer than three characters.
pub open spec fn status_paths_of(lines: Seq<Seq<char>>) -> Seq<Seq<char>>
    decreases lines.len(),
{
    if lines.len() == 0 {
        Seq::empty()
    } else {
        (if lines[0].len() > 3 {
            seq![lines[0].skip(3)]
        } else {
            Seq::empty()
        }) + status_paths_of(lines.drop_first())
    }
}

/// The full byte stream hashed for a package under the repo-aware
/// strategy: the tracked-tree listing; the status and the modified files'
/// parts when there are uncommitted changes; the tagged submodule status
/// when submodules exist; the tagged sparse patterns when sparse checkout
/// is on; and the tagged shallow marker when the clone is shallow.
pub open spec fn git_source_input(d: GitSourceData) -> Seq<u8> {
    encode_utf8(d.ls_tree@) + (if d.status@.len() > 0 {
        encode_utf8(d.status@) + files_input(d.modified_files.deep_view(), d.has_lfs)
    } else {
        Seq::empty()
    }) + (match d.submodule_status {
        Some(s) => if s@.len() > 0 {
            encode_utf8("SUBMODULES:"@) + encode_utf8(s@)
        } else {
            Seq::empty()
        },
        None => Seq::empty(),
    }) + (match d.sparse_file {
        Some(c) => encode_utf8("SPARSE:"@) + utf8_cat(
            sparse_patterns_of(split_seq(c@, seq!['\n'])),
        ),
        None => Seq::empty(),
    }) + (if d.is_shallow {
        encode_utf8("SHALLOW_CLONE"@) + (match d.shallow_bytes {
            Some(b) => b@,
            None => Seq::empty(),
        })
    } else {
        Seq::empty()
    })
}

/// What the fallback strategy hashes: every wanted file's path and bytes,
/// in walk order.
pub open spec fn fallback_input(files: Seq<(Seq<char>, Seq<u8>)>) -> Seq<u8>
    decreases files.len(),
{
    if files.len() == 0 {
        Seq::empty()
    } else {
        encode_utf8(files[0].0) + files[0].1 + fallback_input(files.drop_first())
    }
}

fn bytes_starts_with(s: &Vec<u8>, p: &Vec<u8>) -> (r: bool)
    ensures
        r == starts_with_bytes(s@, p@),
{
    if p.len() > s.len() {
        return false;
    }
    let mut i: usize = 0;
    while i < p.len()
        invariant
            p@.len() <= s@.len(),
            i <= p@.len(),
            forall|j: int| 0 <= j < i ==> s@[j] == p@[j],
        decreases p@.len() - i,
    {
        if s[i] != p[i] {
            proof {
                assert(s@.take(p@.len() as int)[i as int] != p@[i as int]);
            }
            return false;
        }
        i = i + 1;
    }
    proof {
        assert(s@.take(p@.len() as int) =~= p@);
    }
    true
}

fn bytes_split(s: &Vec<u8>, sep: u8) -> (r: Vec<Vec<u8>>)
    ensures
        r.deep_view() == split_bytes(s@, sep),
{
    let mut parts: Vec<Vec<u8>> = Vec::new();
    let mut cur: Vec<u8> = Vec::new();
    let mut i: usize = 0;
    proof {
        assert(s@.skip(0) =~= s@);
        assert(parts.deep_view() + split_bytes_accum(s@, sep, cur@) =~= split_bytes_accum(
            s@,
            sep,
            cur@,
        ));
    }
    while i < s.len()
        invariant
            i <= s@.len(),
            split_bytes(s@, sep) == parts.deep_view() + split_bytes_accum(
                s@.skip(i as int),
                sep,
                cur@,
            ),
        decreases s@.len() - i,
    {
        let ghost pre = parts.deep_view();
        let ghost curv = cur@;
        let ghost rest = s@.skip(i as int);
        proof {
            assert(rest.len() > 0);
            assert(rest[0] == s@[i as int]);
            assert(rest.drop_first() =~= s@.skip(i as int + 1));
        }
        let b = s[i];
        if b == sep {
            parts.push(cur);
            cur = Vec::new();
            proof {
                assert(parts.deep_view() =~~= pre.push(curv));
                assert(pre.push(curv) + split_bytes_accum(rest.drop_first(), sep, Seq::empty())
                    =~= pre + (seq![curv] + split_bytes_accum(
                    rest.drop_first(),
                    sep,
                    Seq::empty(),
                )));
            }
        } else {
            cur.push(b);
            proof {
                assert(cur@ =~= curv.push(s@[i as int]));
            }
        }
        i = i + 1;
    }
    let ghost pre = parts.deep_view();
    let ghost curv = cur@;
    parts.push(cur);
    proof {
        assert(s@.skip(s@.len() as int).len() == 0);
        assert(split_bytes_accum(s@.skip(s@.len() as int), sep, curv) == seq![curv]);
        assert(parts.deep_view() =~~= pre + seq![curv]);
    }
    parts
}

fn blank_byte(b: u8) -> (r: bool)
    ensures
        r == is_blank_byte(b),
{
    b == 32 || b == 9 || b == 13 || b == 10
}

proof fn lemma_trim_bytes_front_is_skip(s: Seq<u8>, a: int)
    requires
        0 <= a <= s.len(),
        forall|j: int| 0 <= j < a ==> is_blank_byte(s[j]),
        a == s.len() || !is_blank_byte(s[a]),
    ensures
        trim_bytes_front(s) == s.skip(a),
    decreases a,
{
    if a == 0 {
        assert(s.skip(0) =~= s);
    } else {
        lemma_trim_bytes_front_is_skip(s.drop_first(), a - 1);
        assert(s.drop_first().skip(a - 1) =~= s.skip(a));
    }
}

proof fn lemma_trim_bytes_back_is_take(s: Seq<u8>, b: int)
    requires
        0 <= b <= s.len(),
        forall|j: int| b <= j < s.len() ==> is_blank_byte(s[j]),
        b == 0 || !is_blank_byte(s[b - 1]),
    ensures
        trim_bytes_back(s) == s.take(b),
    decreases s.len() - b,
{
    if b == s.len() {
        assert(s.take(b) =~= s);
        if s.len() > 0 && is_blank_byte(s.last()) {
            assert(false);
        }
    } else {
        lemma_trim_bytes_back_is_take(s.drop_last(), b);
        assert(s.drop_last().take(b) =~= s.take(b));
    }
}

fn bytes_trim(s: &Vec<u8>) -> (r: Vec<u8>)
    ensures
        r@ == trim_bytes_seq(s@),
{
    let l = s.len();
    let mut a: usize = 0;
    while a < l && blank_byte(s[a])
        invariant
            l == s@.len(),
            a <= l,
            forall|j: int| 0 <= j < a ==> is_blank_byte(s@[j]),
        decreases l - a,
    {
        a = a + 1;
    }
    proof {
        lemma_trim_bytes_front_is_skip(s@, a as int);
    }
    if a == l {
        let r: Vec<u8> = Vec::new();
        proof {
            assert(trim_bytes_seq(s@) =~= Seq::<u8>::empty());
        }
        return r;
    }
    let mut b: usize = l;
    while b > a && blank_byte(s[b - 1])
        invariant
            l == s@.len(),
            a < l,
            !is_blank_byte(s@[a as int]),
            a <= b <= l,
            forall|j: int| b <= j < l ==> is_blank_byte(s@[j]),
        decreases b,
    {
        b = b - 1;
    }
    let mut out: Vec<u8> = Vec::new();
    let mut k: usize = a;
    while k < b
        invariant
            a <= k <= b <= l,
            l == s@.len(),
            out@ =~= s@.subrange(a as int, k as int),
        decreases b - k,
    {
        out.push(s[k]);
        proof {
            assert(out@ =~= s@.subrange(a as int, k as int + 1));
        }
        k = k + 1;
    }
    proof {
        let tail = s@.skip(a as int);
        lemma_trim_bytes_back_is_take(tail, b - a);
        assert(tail.take(b - a) =~= s@.subrange(a as int, b as int));
    }
    out
}

impl CacheManager {
    /// The content is a large-file pointer and the repository uses the
    /// large-file extension.
    pub fn is_lfs_file(&self, content: &Vec<u8>, has_lfs: bool) -> (r: bool)
        ensures
            r == (has_lfs && is_lfs_pointer(content@)),
    {
        if !has_lfs {
            return false;
        }
        let header = "version https://git-lfs.github.com/spec/".as_bytes_vec();
        bytes_starts_with(content, &header)
    }

    /// The object id stored in a large-file pointer, if the content has an
    /// oid line.
    pub fn get_lfs_pointer_hash(&self, content: &Vec<u8>) -> (r: Option<Vec<u8>>)
        ensures
            r.deep_view() == lfs_pointer_oid(content@),
    {
        let prefix = "oid sha256:".as_bytes_vec();
        let lines = bytes_split(content, 10);
        let ghost lv = lines.deep_view();
        let mut k: usize = 0;
        proof {
            assert(lv.skip(0) =~= lv);
        }
        while k < lines.len()
            invariant
                lv == lines.deep_view(),
                lv == split_bytes(content@, 10),
                lv.len() == lines@.len(),
                k <= lines@.len(),
                prefix@ == lfs_oid_prefix_bytes(),
                oid_from_lines(lv) == oid_from_lines(lv.skip(k as int)),
            decreases lines@.len() - k,
        {
            let ghost tail = lv.skip(k as int);
            proof {
                assert(tail.len() > 0);
                assert(tail[0] == lv[k as int]);
                assert(tail.drop_first() =~= lv.skip(k as int + 1));
                assert(lv[k as int] == lines@[k as int]@);
            }
            if bytes_starts_with(&lines[k], &prefix) {
                let rest = vec_u8_skip(&lines[k], prefix.len());
                let oid = bytes_trim(&rest);
                proof {
                    assert(oid@ == trim_bytes_seq(
                        lv[k as int].skip(lfs_oid_prefix_bytes().len() as int),
                    ));
                    assert(oid_from_lines(tail) == Some(oid@));
                    assert(oid.deep_view() =~= oid@);
                }
                return Some(oid);
            }
            k = k + 1;
        }
        proof {
            assert(lv.skip(lv.len() as int).len() == 0);
        }
        None
    }

    /// The paths that the porcelain status lists as touched, in order:
    /// everything after the first three characters of each line longer
    /// than three characters.
    pub fn parse_status_paths(&self, status: &str) -> (r: Vec<String>)
        ensures
            r.deep_view() == status_paths_of(split_seq(status@, seq!['\n'])),
    {
        let mut seps: Vec<char> = Vec::new();
        seps.push('\n');
        proof {
            assert(seps@ =~= seq!['\n']);
        }
        let lines = str_split(status, &seps);
        let ghost lv = lines.deep_view();
        let mut out: Vec<String> = Vec::new();
        let mut k: usize = 0;
        proof {
            assert(lv.skip(0) =~= lv);
            assert(out.deep_view() + status_paths_of(lv) =~= status_paths_of(lv));
        }
        while k < lines.len()
            invariant
                lv == lines.deep_view(),
                lv.len() == lines@.len(),
                k <= lines@.len(),
                status_paths_of(lv) == out.deep_view() + status_paths_of(lv.skip(k as int)),
            decreases lines@.len() - k,
        {
            let ghost tail = lv.skip(k as int);
            let ghost prev = out.deep_view();
            proof {
                assert(tail.len() > 0);
                assert(tail[0] == lv[k as int]);
                assert(tail.drop_first() =~= lv.skip(k as int + 1));
                assert(lv[k as int] == lines@[k as int]@);
            }
            let line = &lines[k];
            let ll = line.as_str().unicode_len();
            if ll > 3 {
                let path = str_skip(line.as_str(), 3);
                out.push(path);
                proof {
                    assert(out.deep_view() =~= prev.push(lv[k as int].skip(3)));
                    assert(prev.push(lv[k as int].skip(3)) + status_paths_of(
                        lv.skip(k as int + 1),
                    ) =~= prev + (seq![lv[k as int].skip(3)] + status_paths_of(
                        lv.skip(k as int + 1),
                    )));
                }
            }
            k = k + 1;
        }
        proof {
            assert(lv.skip(lv.len() as int).len() == 0);
            assert(out.deep_view() + Seq::<Seq<char>>::empty() =~= out.deep_view());
        }
        out
    }

    /// The non-empty, non-comment patterns of a sparse-checkout file,
    /// trimmed, in file order.
    pub fn get_sparse_checkout_patterns(&self, content: &str) -> (r: Vec<String>)
        ensures
            r.deep_view() == sparse_patterns_of(split_seq(content@, seq!['\n'])),
    {
        let mut seps: Vec<char> = Vec::new();
        seps.push('\n');
        proof {
            assert(seps@ =~= seq!['\n']);
        }
        let lines = str_split(content, &seps);
        let ghost lv = lines.deep_view();
        let mut out: Vec<String> = Vec::new();
        let mut k: usize = 0;
        proof {
            assert(lv.skip(0) =~= lv);
            assert(out.deep_view() + sparse_patterns_of(lv) =~= sparse_patterns_of(lv));
        }
        while k < lines.len()
            invariant
                lv == lines.deep_view(),
                lv.len() == lines@.len(),
                k <= lines@.len(),
                sparse_patterns_of(lv) == out.deep_view() + sparse_patterns_of(lv.skip(k as int)),
            decreases lines@.len() - k,
        {
            let ghost tail = lv.skip(k as int);
            let ghost prev = out.deep_view();
            proof {
                assert(tail.len() > 0);
                assert(tail[0] == lv[k as int]);
                assert(tail.drop_first() =~= lv.skip(k as int + 1));
                assert(lv[k as int] == lines@[k as int]@);
            }
            let t = str_trim(lines[k].as_str());
            let tl = t.as_str().unicode_len();
            let keep = if tl == 0 {
                false
            } else {
                t.as_str().get_char(0) != '#'
            };
            if keep {
                out.push(t);
                proof {
                    assert(out.deep_view() =~= prev.push(trim_seq(lv[k as int])));
                    assert(prev.push(trim_seq(lv[k as int])) + sparse_patterns_of(
                        lv.skip(k as int + 1),
                    ) =~= prev + (seq![trim_seq(lv[k as int])] + sparse_patterns_of(
                        lv.skip(k as int + 1),
                    )));
                }
            }
            k = k + 1;
        }
        proof {
            assert(lv.skip(lv.len() as int).len() == 0);
            assert(out.deep_view() + Seq::<Seq<char>>::empty() =~= out.deep_view());
        }
        out
    }

    /// A file that the fallback walk should hash: a source or manifest
    /// file that is not under a build-output, repository or package cache
    /// directory.
    pub fn fallback_file_wanted(&self, path: &str) -> (r: bool)
        ensures
            r == (!crate::strutil::contains_seq(path@, "/target/"@) && !crate::strutil::contains_seq(
                path@,
                "/.git/"@,
            ) && !crate::strutil::contains_seq(path@, "/node_modules/"@) && (
            crate::strutil::ends_with_seq(path@, ".rs"@) || crate::strutil::ends_with_seq(
                path@,
                ".toml"@,
            ))),
    {
        if str_contains(path, "/target/") {
            return false;
        }
        if str_contains(path, "/.git/") {
            return false;
        }
        if str_contains(path, "/node_modules/") {
            return false;
        }
        str_ends_with(path, ".rs") || str_ends_with(path, ".toml")
    }

    /// Hashes the repo-aware observations of one package's sources.
    pub fn compute_source_hash(&self, data: &GitSourceData) -> (r: String)
        ensures
            r@ == digest_hex(git_source_input(*data)),
            r@.len() == 64,
    {
        let mut buf: Vec<u8> = Vec::new();
        let ghost seg1 = encode_utf8(data.ls_tree@);
        push_str_part(&mut buf, data.ls_tree.as_str());
        let ghost seg2 = (if data.status@.len() > 0 {
            encode_utf8(data.status@) + files_input(data.modified_files.deep_view(), data.has_lfs)
        } else {
            Seq::<u8>::empty()
        });
        if data.status.as_str().unicode_len() > 0 {
            push_str_part(&mut buf, data.status.as_str());
            push_files_input(&mut buf, &data.modified_files, data.has_lfs, self);
        }
        proof {
            assert(buf@ =~= seg1 + seg2);
        }
        let ghost seg3 = (if data.submodule_status is Some {
            if data.submodule_status->0@.len() > 0 {
                encode_utf8("SUBMODULES:"@) + encode_utf8(data.submodule_status->0@)
            } else {
                Seq::<u8>::empty()
            }
        } else {
            Seq::<u8>::empty()
        });
        match &data.submodule_status {
            Some(s) => {
                if s.as_str().unicode_len() > 0 {
                    push_str_part(&mut buf, "SUBMODULES:");
                    push_str_part(&mut buf, s.as_str());
                }
            },
            None => {
            },
        }
        proof {
            assert(buf@ =~= seg1 + seg2 + seg3);
        }
        let ghost seg4 = (if data.sparse_file is Some {
            encode_utf8("SPARSE:"@) + utf8_cat(
                sparse_patterns_of(split_seq(data.sparse_file->0@, seq!['\n'])),
            )
        } else {
            Seq::<u8>::empty()
        });
        match &data.sparse_file {
            Some(c) => {
                push_str_part(&mut buf, "SPARSE:");
                let patterns = self.get_sparse_checkout_patterns(c.as_str());
                push_patterns(&mut buf, &patterns);
            },
            None => {
            },
        }
        proof {
            assert(buf@ =~= seg1 + seg2 + seg3 + seg4);
        }
        let ghost seg5 = (if data.is_shallow {
            encode_utf8("SHALLOW_CLONE"@) + (if data.shallow_bytes is Some {
                data.shallow_bytes->0@
            } else {
                Seq::<u8>::empty()
            })
        } else {
            Seq::<u8>::empty()
        });
        if data.is_shallow {
            push_str_part(&mut buf, "SHALLOW_CLONE");
            match &data.shallow_bytes {
                Some(b) => {
                    buf.extend_from_slice(b.as_slice());
                },
                None => {
                },
            }
        }
        proof {
            assert(buf@ =~= seg1 + seg2 + seg3 + seg4 + seg5);
            assert(git_source_input(*data) == seg1 + seg2 + seg3 + seg4 + seg5);
        }
        hash_hex(&buf)
    }

    /// Hashes the wanted files of the fallback walk: each path, then its
    /// bytes, in walk order.
    pub fn compute_fallback_source_hash(&self, files: &Vec<(String, Vec<u8>)>) -> (r: String)
        ensures
            r@ == digest_hex(fallback_input(files.deep_view())),
            r@.len() == 64,
    {
        let ghost fv = files.deep_view();
        let mut buf: Vec<u8> = Vec::new();
        let mut k: usize = 0;
        proof {
            assert(fv.skip(0) =~= fv);
            assert(buf@ + fallback_input(fv) =~= fallback_input(fv));
        }
        while k < files.len()
            invariant
                fv == files.deep_view(),
                fv.len() == files@.len(),
                k <= files@.len(),
                fallback_input(fv) == buf@ + fallback_input(fv.skip(k as int)),
            decreases files@.len() - k,
        {
            let ghost tail = fv.skip(k as int);
            proof {
                assert(tail.len() > 0);
                assert(tail[0] == fv[k as int]);
                assert(tail.drop_first() =~= fv.skip(k as int + 1));
                assert(fv[k as int] == (files@[k as int].0@, files@[k as int].1@));
            }
            push_str_part(&mut buf, files[k].0.as_str());
            buf.extend_from_slice(files[k].1.as_slice());
            proof {
                assert(buf@ + fallback_input(fv.skip(k as int + 1)) =~= fallback_input(fv));
            }
            k = k + 1;
        }
        proof {
            assert(fv.skip(fv.len() as int).len() == 0);
        }
        hash_hex(&buf)
    }

}

/// A copy of everything after the first `n` bytes.
fn vec_u8_skip(v: &Vec<u8>, n: usize) -> (r: Vec<u8>)
    requires
        n <= v@.len(),
    ensures
        r@ == v@.skip(n as int),
{
    let mut out: Vec<u8> = Vec::new();
    let mut k: usize = n;
    while k < v.len()
        invariant
            n <= k <= v@.len(),
            out@ =~= v@.subrange(n as int, k as int),
        decreases v@.len() - k,
    {
        out.push(v[k]);
        proof {
            assert(out@ =~= v@.subrange(n as int, k as int + 1));
        }
        k = k + 1;
    }
    proof {
        assert(v@.subrange(n as int, v@.len() as int) =~= v@.skip(n as int));
    }
    out
}

/// Appends the UTF-8 bytes of one textual part.
fn push_str_part(buf: &mut Vec<u8>, s: &str)
    ensures
        final(buf)@ == old(buf)@ + encode_utf8(s@),
{
    buf.extend_from_slice(s.as_bytes());
}

/// Appends every modified file's part, in order.
fn push_files_input(
    buf: &mut Vec<u8>,
    files: &Vec<(String, Vec<u8>)>,
    has_lfs: bool,
    mgr: &CacheManager,
)
    ensures
        final(buf)@ == old(buf)@ + files_input(files.deep_view(), has_lfs),
{
    let ghost fv = files.deep_view();
    let ghost base = buf@;
    let mut k: usize = 0;
    proof {
        assert(fv.skip(0) =~= fv);
    }
    while k < files.len()
        invariant
            fv == files.deep_view(),
            fv.len() == files@.len(),
            k <= files@.len(),
            base + files_input(fv, has_lfs) == buf@ + files_input(fv.skip(k as int), has_lfs),
        decreases files@.len() - k,
    {
        let ghost tail = fv.skip(k as int);
        proof {
            assert(tail.len() > 0);
            assert(tail[0] == fv[k as int]);
            assert(tail.drop_first() =~= fv.skip(k as int + 1));
            assert(fv[k as int] == (files@[k as int].0@, files@[k as int].1@));
        }
        let content = &files[k].1;
        let lfs = mgr.is_lfs_file(content, has_lfs);
        let mut tagged = false;
        if lfs {
            match mgr.get_lfs_pointer_hash(content) {
                Some(oid) => {
                    push_str_part(buf, "LFS:");
                    buf.extend_from_slice(oid.as_slice());
                    tagged = true;
                    proof {
                        assert(file_part(fv[k as int].0, fv[k as int].1, has_lfs) == encode_utf8(
                            "LFS:"@,
                        ) + lfs_pointer_oid(files@[k as int].1@)->0);
                    }
                },
                None => {
                },
            }
        }
        if !tagged {
            push_str_part(buf, files[k].0.as_str());
            buf.extend_from_slice(files[k].1.as_slice());
            proof {
                assert(file_part(fv[k as int].0, fv[k as int].1, has_lfs) == encode_utf8(
                    files@[k as int].0@,
                ) + files@[k as int].1@);
            }
        }
        proof {
            assert(buf@ + files_input(fv.skip(k as int + 1), has_lfs) =~= base + files_input(
                fv,
                has_lfs,
            ));
        }
        k = k + 1;
    }
    proof {
        assert(fv.skip(fv.len() as int).len() == 0);
        assert(buf@ =~= base + files_input(fv, has_lfs));
    }
}

/// Appends every sparse pattern's bytes, in order.
fn push_patterns(buf: &mut Vec<u8>, patterns: &Vec<String>)
    ensures
        final(buf)@ == old(buf)@ + utf8_cat(patterns.deep_view()),
{
    let ghost pv = patterns.deep_view();
    let ghost base = buf@;
    let mut k: usize = 0;
    proof {
        assert(pv.skip(0) =~= pv);
    }
    while k < patterns.len()
        invariant
            pv == patterns.deep_view(),
            pv.len() == patterns@.len(),
            k <= patterns@.len(),
            base + utf8_cat(pv) == buf@ + utf8_cat(pv.skip(k as int)),
        decreases patterns@.len() - k,
    {
        let ghost tail = pv.skip(k as int);
        proof {
            assert(tail.len() > 0);
            assert(tail[0] == pv[k as int]);
            assert(tail.drop_first() =~= pv.skip(k as int + 1));
            assert(pv[k as int] == patterns@[k as int]@);
        }
        push_str_part(buf, patterns[k].as_str());
        proof {
            assert(buf@ + utf8_cat(pv.skip(k as int + 1)) =~= base + utf8_cat(pv));
        }
        k = k + 1;
    }
    proof {
        assert(pv.skip(pv.len() as int).len() == 0);
        assert(buf@ =~= base + utf8_cat(pv));
    }
}

} // verus!
