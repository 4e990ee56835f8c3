//! The state of the git repository that the row shows, and when it is refreshed.
use vstd::prelude::*;
#[allow(unused_imports)]
use vstd::utf8::{decode_utf8, valid_utf8};

use crate::text::{count_nonblank, decimal_text, trimmed};
#[allow(unused_imports)]
use crate::text::{
    decimal, law_decimal_reads_back, law_lines_end_at_line_feeds, law_nonblank_counts_lines,
    law_trim_leaves_the_inner_text, lines, natural, nonblank, trim, white, Class,
};

verus! {

/// How long a refresh stands, in nanoseconds: git runs at most once in that time.
pub const GIT_TTL: u64 = 3_000_000_000;

/// The last finished git state, and when the last refresh began.
pub struct GitCache {
    pub branch: String,
    pub dirty: u64,
    pub last: Option<u64>,
}

/// What a finished git command left: whether it succeeded, and its output.
pub struct GitOutput {
    pub success: bool,
    pub stdout: Vec<u8>,
}

/// The text that `String::from_utf8_lossy` reads in bytes.
pub uninterp spec fn lossy(bytes: Seq<u8>) -> Seq<char>;

/// `String::from_utf8_lossy`: the text that the bytes encode. It depends on the
/// bytes alone, and valid UTF-8 is decoded as it is; what stands in for other
/// bytes is left to its name.
#[verifier::external_body]
pub(crate) fn lossy_text(bytes: &[u8]) -> (text: String)
    ensures
        text@ == lossy(bytes@),
        valid_utf8(bytes@) ==> text@ == decode_utf8(bytes@),
{
    String::from_utf8_lossy(bytes).into_owned()
}

/// Whether the refresh that began at `last` no longer stands.
pub open spec fn stale(last: Option<u64>, now: u64) -> bool {
    match last {
        Some(last) => now - last >= GIT_TTL,
        None => true,
    }
}

/// The branch after `rev-parse` printed `text`.
pub open spec fn branch_name(text: Seq<char>) -> Seq<char> {
    trim(text, Class::White)
}

/// The number of changed files after `status` printed `text`, one on each line.
pub open spec fn changed_files(text: Seq<char>) -> nat {
    nonblank(lines(text))
}

/// The text of a command that ran and succeeded.
pub open spec fn output_of(output: Option<GitOutput>) -> Option<Seq<char>> {
    match output {
        Some(output) if output.success => Some(lossy(output.stdout@)),
        _ => None,
    }
}

/// The git pill: the branch, and the number of changed files where there are any,
/// cut to 24 characters.
pub open spec fn git_pill(branch: Seq<char>, dirty: u64) -> Seq<char> {
    if branch.len() == 0 {
        "git:none"@
    } else {
        let mark = if dirty > 0 {
            " *"@ + decimal(dirty as nat)
        } else {
            Seq::empty()
        };
        let full = "git:"@ + branch + mark;
        if full.len() > 24 {
            full.take(24)
        } else {
            full
        }
    }
}

/// The text of the git pill.
pub fn git_text(branch: &str, dirty: u64) -> (text: String)
    ensures
        text@ == git_pill(branch@, dirty),
{
    if branch.is_empty() {
        return "git:none".to_owned();
    }
    let mut text = "git:".to_owned().concat(branch);
    if dirty > 0 {
        text.append(" *");
        text.append(decimal_text(dirty).as_str());
    }
    proof {
        assert(text@ =~= "git:"@ + branch@ + if dirty > 0 {
            " *"@ + decimal(dirty as nat)
        } else {
            Seq::empty()
        });
    }
    if text.as_str().unicode_len() > 24 {
        text.as_str().substring_char(0, 24).to_owned()
    } else {
        text
    }
}

fn output_text(output: Option<GitOutput>) -> (text: Option<String>)
    ensures
        crate::text::opt_view(text) == output_of(output),
{
    match output {
        Some(output) => if output.success {
            Some(lossy_text(output.stdout.as_slice()))
        } else {
            None
        },
        None => None,
    }
}

impl GitCache {
    /// Starts fresh: the first refresh begins when the time is up.
    pub fn new(now: u64) -> (cache: GitCache)
        ensures
            cache.branch@ == ""@,
            cache.dirty == 0,
            cache.last == Some(now),
    {
        GitCache { branch: "".to_owned(), dirty: 0, last: Some(now) }
    }

    /// Whether a refresh is due. Where it is, it begins now.
    pub fn begin_refresh(&mut self, now: u64) -> (due: bool)
        ensures
            due == stale(old(self).last, now),
            final(self).last == if due {
                Some(now)
            } else {
                old(self).last
            },
            final(self).branch == old(self).branch,
            final(self).dirty == old(self).dirty,
    {
        let due = match self.last {
            Some(last) => now >= last && now - last >= GIT_TTL,
            None => true,
        };
        if due {
            self.last = Some(now);
        }
        due
    }

    /// Takes in what git printed: the branch from `rev-parse`, the number of changed
    /// files from `status`. A command that did not run or failed leaves what stood.
    pub fn finish_refresh(&mut self, branch: Option<GitOutput>, status: Option<GitOutput>)
        ensures
            final(self).branch@ == (match output_of(branch) {
                Some(text) => branch_name(text),
                None => old(self).branch@,
            }),
            final(self).dirty == (match output_of(status) {
                Some(text) => changed_files(text),
                None => old(self).dirty as nat,
            }),
            final(self).last == old(self).last,
    {
        if let Some(text) = output_text(branch) {
            self.set_branch(text.as_str());
        }
        if let Some(text) = output_text(status) {
            self.set_dirty(text.as_str());
        }
    }

    /// Takes the branch from what `rev-parse` printed.
    pub fn set_branch(&mut self, text: &str)
        ensures
            final(self).branch@ == branch_name(text@),
            final(self).dirty == old(self).dirty,
            final(self).last == old(self).last,
    {
        self.branch = trimmed(text);
    }

    /// Takes the number of changed files from what `status` printed.
    pub fn set_dirty(&mut self, text: &str)
        ensures
            final(self).dirty == changed_files(text@),
            final(self).branch == old(self).branch,
            final(self).last == old(self).last,
    {
        self.dirty = count_nonblank(text) as u64;
    }
}

/// When the last refresh began, after the cache was asked at each of `times`.
pub open spec fn last_after(last: Option<u64>, times: Seq<u64>) -> Option<u64>
    decreases times.len(),
{
    if times.len() == 0 {
        last
    } else {
        let before = last_after(last, times.drop_last());
        if stale(before, times.last()) {
            Some(times.last())
        } else {
            before
        }
    }
}

/// The times at which a refresh began, of those at which the cache was asked.
pub open spec fn refreshes(last: Option<u64>, times: Seq<u64>) -> Seq<u64>
    decreases times.len(),
{
    if times.len() == 0 {
        Seq::empty()
    } else {
        let before = refreshes(last, times.drop_last());
        if stale(last_after(last, times.drop_last()), times.last()) {
            before.push(times.last())
        } else {
            before
        }
    }
}

/// However often the cache is asked, any two refreshes lie at least `GIT_TTL`
/// apart, and the first one at least that long after the start of a fresh cache.
pub proof fn law_refreshes_are_apart(start: u64, times: Seq<u64>)
    ensures
        ({
            let began = refreshes(Some(start), times);
            &&& forall|i: int, j: int|
                #![trigger began[i], began[j]]
                0 <= i < j < began.len() ==> began[j] - began[i] >= GIT_TTL
            &&& forall|i: int| 0 <= i < began.len() ==> #[trigger] began[i] - start >= GIT_TTL
            &&& last_after(Some(start), times) == Some(
                if began.len() == 0 {
                    start
                } else {
                    began.last()
                },
            )
        }),
    decreases times.len(),
{
    if times.len() > 0 {
        law_refreshes_are_apart(start, times.drop_last());
    }
}

/// The git pill is at most 24 characters long.
pub proof fn law_git_pill_is_short(branch: Seq<char>, dirty: u64)
    ensures
        git_pill(branch, dirty).len() <= 24,
{
    reveal_strlit("git:none");
}

/// The pill of a branch is `git:` and the branch, and where any file is changed, from
/// the first one on, a space, a star and their number in decimal; of a longer text
/// the first 24 characters. Without a branch it is `git:none`.
pub proof fn law_git_pill_is_branch_and_changes(branch: Seq<char>, dirty: u64)
    ensures
        branch.len() == 0 ==> git_pill(branch, dirty) == "git:none"@,
        branch.len() > 0 && 4 + branch.len() <= 24 ==> git_pill(branch, 0) == "git:"@ + branch,
        branch.len() > 0 && 4 + branch.len() > 24 ==> git_pill(branch, 0) == ("git:"@
            + branch).take(24),
        branch.len() > 0 && dirty >= 1 ==> {
            let full = "git:"@ + branch + " *"@ + decimal(dirty as nat);
            &&& full.len() <= 24 ==> git_pill(branch, dirty) == full
            &&& full.len() > 24 ==> git_pill(branch, dirty) == full.take(24)
        },
{
    reveal_strlit("git:");
    reveal_strlit(" *");
    assert("git:"@ + branch + Seq::<char>::empty() =~= "git:"@ + branch);
    assert("git:"@ + branch + (" *"@ + decimal(dirty as nat)) =~= "git:"@ + branch + " *"@
        + decimal(dirty as nat));
}

/// From a pill that is not cut the branch and the number of changed files can be
/// read back.
pub proof fn law_git_pill_reads_back(branch: Seq<char>, dirty: u64)
    requires
        branch.len() > 0,
        4 + branch.len() + (if dirty > 0 {
            2 + decimal(dirty as nat).len()
        } else {
            0
        }) <= 24,
    ensures
        ({
            let pill = git_pill(branch, dirty);
            let end = 4 + branch.len() as int;
            &&& pill.len() >= end
            &&& pill.subrange(4, end) == branch
            &&& dirty == 0 <==> pill.len() == end
            &&& dirty > 0 ==> natural(pill.skip(end + 2)) == Some(dirty)
        }),
{
    law_git_pill_is_branch_and_changes(branch, dirty);
    reveal_strlit("git:");
    reveal_strlit(" *");
    let pill = git_pill(branch, dirty);
    let end = 4 + branch.len() as int;
    law_decimal_reads_back(dirty);
    if dirty > 0 {
        assert(pill == "git:"@ + branch + " *"@ + decimal(dirty as nat));
        assert(pill.skip(end + 2) =~= decimal(dirty as nat));
    }
    assert(pill.subrange(4, end) =~= branch);
}

/// Different numbers of changed files make different pills of a branch, a clean tree
/// and one changed file among them, as long as the pills are not cut.
pub proof fn law_git_pill_tells_changes_apart(branch: Seq<char>, one: u64, other: u64)
    requires
        branch.len() > 0,
        one != other,
        one > 0 ==> 4 + branch.len() + 2 + decimal(one as nat).len() <= 24,
        other > 0 ==> 4 + branch.len() + 2 + decimal(other as nat).len() <= 24,
    ensures
        git_pill(branch, one) != git_pill(branch, other),
{
    law_git_pill_reads_back(branch, one);
    law_git_pill_reads_back(branch, other);
}

/// A longer pill is cut at its end only: two pills of one branch start alike.
pub proof fn law_git_pill_starts_with_the_branch(branch: Seq<char>, dirty: u64, i: int)
    requires
        branch.len() > 0,
        0 <= i < branch.len(),
        4 + i < 24,
    ensures
        git_pill(branch, dirty).len() > 4 + i,
        git_pill(branch, dirty)[4 + i] == branch[i],
        git_pill(branch, dirty).take(4) == "git:"@,
{
    reveal_strlit("git:");
    law_git_pill_is_branch_and_changes(branch, dirty);
    assert(git_pill(branch, dirty).take(4) =~= "git:"@);
}

/// A refresh stands for three seconds and no longer, counted from when it began; a
/// clock that went back leaves it standing. Where none ever began, one is due.
pub proof fn law_a_refresh_stands_for_three_seconds(last: u64, now: u64)
    ensures
        now >= last && now - last < 3_000_000_000 ==> !stale(Some(last), now),
        now >= last && now - last >= 3_000_000_000 ==> stale(Some(last), now),
        now < last ==> !stale(Some(last), now),
        stale(None, now),
{
}

/// Whenever the cache is asked, a refresh begins at that moment if and only if three
/// seconds have gone by since the last one began.
pub proof fn law_a_refresh_begins_when_it_is_due(start: u64, times: Seq<u64>, now: u64)
    ensures
        ({
            let before = refreshes(Some(start), times);
            let last = if before.len() > 0 {
                before.last()
            } else {
                start
            };
            let after = refreshes(Some(start), times.push(now));
            &&& now - last >= 3_000_000_000 ==> after == before.push(now)
            &&& now - last < 3_000_000_000 ==> after == before
        }),
        refreshes(Some(start), Seq::empty()).len() == 0,
{
    assert(times.push(now).drop_last() =~= times);
    assert(times.push(now).last() == now);
    law_refreshes_are_apart(start, times);
}

/// The branch is the printed name without the white space around it, such as the
/// line feed at its end; white space inside it stays.
pub proof fn law_the_branch_is_the_printed_name(
    front: Seq<char>,
    name: Seq<char>,
    back: Seq<char>,
)
    requires
        forall|i: int| 0 <= i < front.len() ==> white(#[trigger] front[i]),
        forall|i: int| 0 <= i < back.len() ==> white(#[trigger] back[i]),
        name.len() == 0 || (!white(name[0]) && !white(name.last())),
    ensures
        branch_name(front + name + back) == name,
{
    assert forall|i: int| 0 <= i < front.len() implies Class::White.has(#[trigger] front[i]) by {
        assert(white(front[i]));
    }
    assert forall|i: int| 0 <= i < back.len() implies Class::White.has(#[trigger] back[i]) by {
        assert(white(back[i]));
    }
    law_trim_leaves_the_inner_text(front, name, back, Class::White);
}

/// Each printed line is a changed file, unless there is nothing but white space on
/// it: a line more is a file more, the first one and the last one too.
pub proof fn law_each_printed_line_is_a_changed_file(line: Seq<char>, rest: Seq<char>)
    requires
        !line.contains('\n'),
    ensures
        (exists|i: int| 0 <= i < line.len() && !white(#[trigger] line[i])) ==> changed_files(
            line + seq!['\n'] + rest,
        ) == changed_files(rest) + 1 && changed_files(line) == 1,
        (forall|i: int| 0 <= i < line.len() ==> white(#[trigger] line[i])) ==> changed_files(
            line + seq!['\n'] + rest,
        ) == changed_files(rest) && changed_files(line) == 0,
{
    law_lines_end_at_line_feeds(line, rest);
    law_nonblank_counts_lines(line, lines(rest));
    law_nonblank_counts_lines(line, Seq::empty());
    assert(seq![line] + Seq::<Seq<char>>::empty() =~= seq![line]);
}

/// Only a command that ran and succeeded has said anything, and it has said all that
/// it printed.
pub proof fn law_only_success_says_anything(output: GitOutput)
    ensures
        output_of(None) is None,
        !output.success ==> output_of(Some(output)) is None,
        output.success ==> output_of(Some(output)) == Some(lossy(output.stdout@)),
{
}

} // verus!
