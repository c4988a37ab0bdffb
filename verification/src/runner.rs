use vstd::prelude::*;

verus! {

use crate::manager::CacheManager;
use crate::strutil::concat2;
use crate::strutil::dec_chars;
use crate::strutil::starts_with_seq;
use crate::strutil::str_eq;
use crate::strutil::str_starts_with;
use crate::strutil::str_trim;
use crate::strutil::trim_seq;
use crate::strutil::u64_to_dec_string;

/// Subcommands for which the incremental machinery is bypassed entirely:
/// no cache lookups and no record writes.
pub open spec fn spec_is_bypass(sub: Seq<char>) -> bool {
    sub == "clean"@ || sub == "update"@ || sub == "new"@ || sub == "init"@
}

/// Subcommands that may be skipped outright when every package is cached.
pub open spec fn spec_is_cacheable(sub: Seq<char>) -> bool {
    sub == "build"@ || sub == "check"@ || sub == "clippy"@ || sub == "test"@
}

/// A line of child output that announces compilation work, once trimmed.
pub open spec fn spec_is_compile_line(line: Seq<char>) -> bool {
    starts_with_seq(trim_seq(line), "Compiling "@) || starts_with_seq(trim_seq(line), "Building "@)
}

impl CacheManager {
    /// Splits a build's wall-clock duration evenly across the packages that
    /// were rebuilt, charging the whole duration when the count is zero.
    pub fn apportion_duration(&self, total_ms: u64, count: usize) -> (r: u64)
        ensures
            count == 0 ==> r == total_ms,
            count > 0 ==> r == total_ms as nat / count as nat,
    {
        if count == 0 {
            total_ms
        } else {
            total_ms / (count as u64)
        }
    }

    pub fn is_bypass_subcommand(&self, subcommand: &str) -> (r: bool)
        ensures
            r == spec_is_bypass(subcommand@),
    {
        str_eq(subcommand, "clean") || str_eq(subcommand, "update") || str_eq(subcommand, "new")
            || str_eq(subcommand, "init")
    }

    pub fn is_cacheable_subcommand(&self, subcommand: &str) -> (r: bool)
        ensures
            r == spec_is_cacheable(subcommand@),
    {
        str_eq(subcommand, "build") || str_eq(subcommand, "check") || str_eq(subcommand, "clippy")
            || str_eq(subcommand, "test")
    }

    /// The fast path: nothing changed and the subcommand is one whose work
    /// the cache can stand in for, so the child is not spawned at all and
    /// the invocation reports success with no output.
    pub fn should_skip_build(&self, subcommand: &str, changed_count: usize) -> (r: bool)
        ensures
            r == (changed_count == 0 && spec_is_cacheable(subcommand@)),
    {
        changed_count == 0 && self.is_cacheable_subcommand(subcommand)
    }

    /// Per-package records are committed exactly when the child exited
    /// with code zero and the subcommand was not a bypass subcommand. A
    /// failed child, a killed child (no exit code at all) and a bypass run
    /// all commit nothing.
    pub fn should_write_package_records(&self, exit_code: &Option<i32>, subcommand: &str) -> (r:
        bool)
        ensures
            r == ((match exit_code {
                Some(c) => *c == 0,
                None => false,
            }) && !spec_is_bypass(subcommand@)),
    {
        let ok = match exit_code {
            Some(c) => *c == 0,
            None => false,
        };
        ok && !self.is_bypass_subcommand(subcommand)
    }

    /// The line announces compilation work and gets a progress suffix.
    pub fn line_is_compile_progress(&self, line: &str) -> (r: bool)
        ensures
            r == spec_is_compile_line(line@),
    {
        let trimmed = str_trim(line);
        str_starts_with(trimmed.as_str(), "Compiling ") || str_starts_with(
            trimmed.as_str(),
            "Building ",
        )
    }

    /// The suffix appended to a compile line: the index of this compile
    /// step over the size of the changed set.
    pub fn progress_suffix(&self, step: u64, total: u64) -> (r: String)
        ensures
            r@ == " ["@ + dec_chars(step as nat) + "/"@ + dec_chars(total as nat) + "]"@,
    {
        let mut s = concat2(" [", u64_to_dec_string(step).as_str());
        s.append("/");
        s.append(u64_to_dec_string(total).as_str());
        s.append("]");
        proof {
            assert(s@ =~= " ["@ + dec_chars(step as nat) + "/"@ + dec_chars(total as nat) + "]"@);
        }
        s
    }

    /// A compile line with its progress suffix attached.
    pub fn annotate_progress_line(&self, line: &str, step: u64, total: u64) -> (r: String)
        ensures
            r@ == line@ + " ["@ + dec_chars(step as nat) + "/"@ + dec_chars(total as nat) + "]"@,
    {
        let suffix = self.progress_suffix(step, total);
        let r = concat2(line, suffix.as_str());
        proof {
            assert(r@ =~= line@ + " ["@ + dec_chars(step as nat) + "/"@ + dec_chars(total as nat)
                + "]"@);
        }
        r
    }

    /// The identifier of one invocation: the timestamp, a dash, and the
    /// first eight digits of the command hash.
    pub fn generate_cache_id(
        &self,
        timestamp: &str,
        subcommand: &str,
        args: &Vec<String>,
        cwd: &Option<String>,
    ) -> (r: String)
        ensures
            r@ == timestamp@ + "-"@ + crate::hashing::digest_hex(
                crate::fingerprint::utf8_cat(
                    crate::fingerprint::command_parts(subcommand@, args.deep_view(), cwd.deep_view()),
                ),
            ).take(16).take(8),
    {
        let hash = self.compute_command_hash(subcommand, args, cwd);
        let short = crate::strutil::str_take(hash.as_str(), 8);
        let mut s = concat2(timestamp, "-");
        s.append(short.as_str());
        proof {
            let full = crate::hashing::digest_hex(
                crate::fingerprint::utf8_cat(
                    crate::fingerprint::command_parts(subcommand@, args.deep_view(), cwd.deep_view()),
                ),
            );
            assert(s@ =~= timestamp@ + "-"@ + full.take(16).take(8));
        }
        s
    }
}

} // verus!
