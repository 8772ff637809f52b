//! Decisions about a repository's HEAD.

use vstd::prelude::*;
use vstd::string::StringExecFns;

use crate::bytes;
use crate::text;

verus! {

/// Selects how the prospective commit is constructed.
#[derive(Debug, Clone, Copy, PartialEq, Eq, Structural)]
pub enum CommitMode {
    /// Compare the current index with the tree at HEAD.
    ///
    /// An unborn repository uses an empty base tree.
    Normal,
    /// Compare the current index with the first parent's tree of HEAD.
    ///
    /// A root commit uses an empty base tree. Merge commits are rejected.
    Amend,
}

/// The tree that precedes a prospective commit.
#[derive(Debug, Clone, Copy, PartialEq, Eq, Structural)]
pub enum BaseTree {
    /// The empty tree.
    Empty,
    /// The tree at HEAD.
    Head,
    /// The tree of the first parent of HEAD.
    FirstParent,
}

/// Why no tree precedes a prospective commit.
#[derive(Debug, Clone, Copy, PartialEq, Eq, Structural)]
pub enum BaseTreeError {
    /// There is no commit to amend.
    Unborn,
    /// The commit to amend is a merge of this many parents.
    Merge {
        /// Number of parents.
        parents: usize,
    },
}

/// The tree that precedes a prospective commit, from the parent count of HEAD where there is one.
pub open spec fn base(mode: CommitMode, head_parents: Option<usize>) -> Result<
    BaseTree,
    BaseTreeError,
> {
    match (head_parents, mode) {
        (None, CommitMode::Normal) => Ok(BaseTree::Empty),
        (None, CommitMode::Amend) => Err(BaseTreeError::Unborn),
        (Some(_), CommitMode::Normal) => Ok(BaseTree::Head),
        (Some(parents), CommitMode::Amend) => if parents == 0 {
            Ok(BaseTree::Empty)
        } else if parents == 1 {
            Ok(BaseTree::FirstParent)
        } else {
            Err(BaseTreeError::Merge { parents })
        },
    }
}

/// Resolve the commit mode to the tree that precedes the prospective commit.
pub fn base_tree(mode: CommitMode, head_parents: Option<usize>) -> (result: Result<
    BaseTree,
    BaseTreeError,
>)
    ensures
        result == base(mode, head_parents),
{
    match head_parents {
        None => match mode {
            CommitMode::Normal => Ok(BaseTree::Empty),
            CommitMode::Amend => Err(BaseTreeError::Unborn),
        },
        Some(parents) => match mode {
            CommitMode::Normal => Ok(BaseTree::Head),
            CommitMode::Amend => {
                if parents == 0 {
                    Ok(BaseTree::Empty)
                } else if parents == 1 {
                    Ok(BaseTree::FirstParent)
                } else {
                    Err(BaseTreeError::Merge { parents })
                }
            },
        },
    }
}

/// What a refused base tree is reported as, with the ID of the commit at HEAD.
pub open spec fn base_tree_message(error: BaseTreeError, head: Seq<char>) -> Seq<char> {
    match error {
        BaseTreeError::Unborn => "cannot amend because the repository has no existing commit"@,
        BaseTreeError::Merge { parents } => "cannot amend merge commit "@ + head + " with "@
            + text::decimal(parents as nat) + " parents; merge amendments are not supported"@,
    }
}

impl BaseTreeError {
    /// What the error is reported as, with the ID of the commit at HEAD.
    pub fn message(&self, head: &str) -> (message: String)
        ensures
            message@ == base_tree_message(*self, head@),
    {
        match self {
            BaseTreeError::Unborn => {
                "cannot amend because the repository has no existing commit".to_owned()
            },
            BaseTreeError::Merge { parents } => {
                let mut message = "cannot amend merge commit ".to_owned();
                message.append(head);
                message.append(" with ");
                text::append_decimal(&mut message, *parents as u64);
                message.append(" parents; merge amendments are not supported");
                message
            },
        }
    }
}

/// A merge commit is never amended, and anything but a merge or an unborn HEAD can be.
pub proof fn lemma_only_merges_and_unborn_heads_are_refused(
    mode: CommitMode,
    head_parents: Option<usize>,
)
    ensures
        base(mode, head_parents) is Err <==> mode == CommitMode::Amend && (head_parents is None
            || head_parents->0 > 1),
{
}

/// The checked-out branch that the target of a symbolic HEAD names.
#[derive(Debug, Clone, PartialEq, Eq)]
pub enum HeadBranch {
    /// HEAD is detached, or names no local branch.
    Detached,
    /// The name of the local branch.
    Local(String),
    /// The name of the local branch is not UTF-8.
    NotText,
}

/// The prefix of the references that are local branches.
pub open spec fn branch_prefix() -> Seq<u8> {
    seq![114, 101, 102, 115, 47, 104, 101, 97, 100, 115, 47]
}

/// Whether HEAD with this symbolic target is on the local branch with these bytes as its name.
pub open spec fn names_branch(target: Option<Seq<u8>>, name: Seq<u8>) -> bool {
    target == Some(branch_prefix() + name)
}

/// The symbolic target of HEAD.
pub open spec fn target_bytes(target: Option<&[u8]>) -> Option<Seq<u8>> {
    match target {
        Some(bytes) => Some(bytes@),
        None => None,
    }
}

/// The prefix of local branches is spelled `refs/heads/`.
pub proof fn lemma_branch_prefix_is_refs_heads()
    ensures
        branch_prefix() == vstd::utf8::encode_utf8("refs/heads/"@),
{
    reveal_strlit("refs/heads/");
    assert("refs/heads/"@ =~= seq!['r', 'e', 'f', 's', '/', 'h', 'e', 'a', 'd', 's', '/']);
    vstd::utf8::is_ascii_chars_encode_utf8("refs/heads/"@);
    assert(vstd::utf8::encode_utf8("refs/heads/"@) =~= branch_prefix());
}

/// Read the checked-out local branch from the symbolic target of HEAD.
///
/// Symbolic references outside refs/heads are not reported as local branches.
pub fn current_branch(target: Option<&[u8]>) -> (result: HeadBranch)
    ensures
        match result {
            HeadBranch::Detached => forall|name: Seq<u8>|
                !#[trigger] names_branch(target_bytes(target), name),
            HeadBranch::Local(branch) => names_branch(
                target_bytes(target),
                vstd::utf8::encode_utf8(branch@),
            ),
            HeadBranch::NotText => exists|name: Seq<u8>| #[trigger]
                names_branch(target_bytes(target), name) && !vstd::utf8::valid_utf8(name),
        },
{
    let prefix: Vec<u8> = vec![114, 101, 102, 115, 47, 104, 101, 97, 100, 115, 47];
    assert(prefix@ =~= branch_prefix());
    match target {
        Some(found) => {
            if found.len() < prefix.len() {
                return HeadBranch::Detached;
            }
            let start = bytes::bytes_between(found, 0, prefix.len());
            if !bytes::same_bytes(&start, &prefix) {
                assert forall|name: Seq<u8>| !#[trigger] names_branch(
                    target_bytes(target),
                    name,
                ) by {
                    if names_branch(target_bytes(target), name) {
                        assert(found@.subrange(0, prefix@.len() as int) =~= prefix@);
                    }
                }
                return HeadBranch::Detached;
            }
            let rest = bytes::bytes_between(found, prefix.len(), found.len());
            assert(found@ =~= branch_prefix() + rest@);
            assert(names_branch(target_bytes(target), rest@));
            match text::strict_text(&rest) {
                Some(branch) => {
                    proof {
                        vstd::utf8::decode_utf8_encode_utf8(rest@);
                    }
                    HeadBranch::Local(branch)
                },
                None => HeadBranch::NotText,
            }
        },
        None => HeadBranch::Detached,
    }
}

/// The arguments of the Git command that opens the commit editor with a message.
pub open spec fn commit_command(mode: CommitMode, message: Seq<char>) -> Seq<Seq<char>> {
    match mode {
        CommitMode::Normal => seq!["commit"@, "--edit"@, "--message"@, message],
        CommitMode::Amend => seq!["commit"@, "--amend"@, "--edit"@, "--message"@, message],
    }
}

/// The arguments of the Git command that opens the commit editor with a message.
pub fn commit_arguments(mode: CommitMode, message: &str) -> (arguments: Vec<String>)
    ensures
        text::texts(arguments@) == commit_command(mode, message@),
{
    let arguments: Vec<String> = match mode {
        CommitMode::Normal => {
            vec![
                "commit".to_owned(),
                "--edit".to_owned(),
                "--message".to_owned(),
                message.to_owned(),
            ]
        },
        CommitMode::Amend => {
            vec![
                "commit".to_owned(),
                "--amend".to_owned(),
                "--edit".to_owned(),
                "--message".to_owned(),
                message.to_owned(),
            ]
        },
    };
    assert(text::texts(arguments@) =~= commit_command(mode, message@));
    arguments
}

/// A new commit is compared with HEAD, or with nothing where there is no commit yet; an amended one
/// with what came before the commit that it replaces.
pub proof fn lemma_commits_are_compared_with_what_precedes_them(head_parents: Option<usize>)
    ensures
        base(CommitMode::Normal, head_parents) == Ok::<_, BaseTreeError>(
            if head_parents is Some {
                BaseTree::Head
            } else {
                BaseTree::Empty
            },
        ),
        base(CommitMode::Amend, head_parents) == Ok::<_, BaseTreeError>(BaseTree::FirstParent)
            <==> head_parents == Some(1usize),
        base(CommitMode::Amend, head_parents) == Ok::<_, BaseTreeError>(BaseTree::Empty)
            <==> head_parents == Some(0usize),
        head_parents matches Some(parents) && parents > 1 ==> base(CommitMode::Amend, head_parents)
            == Err::<BaseTree, _>(BaseTreeError::Merge { parents: head_parents->0 }),
{
}

/// A commit always opens the editor on the message, which is one argument, and replaces the current
/// commit exactly where that is asked for.
#[verifier::rlimit(50)]
pub proof fn lemma_commits_open_the_editor_on_the_message(mode: CommitMode, message: Seq<char>)
    requires
        message != "--amend"@,
    ensures
        ({
            let command = commit_command(mode, message);
            &&& command[0] == "commit"@
            &&& command.last() == message
            &&& command[command.len() - 2] == "--message"@
            &&& command.contains("--edit"@)
            &&& command.contains("--amend"@) <==> mode == CommitMode::Amend
        }),
{
    reveal_strlit("commit");
    reveal_strlit("--edit");
    reveal_strlit("--message");
    reveal_strlit("--amend");
    let command = commit_command(mode, message);
    assert(command[command.len() - 3] == "--edit"@);
    if mode == CommitMode::Amend {
        assert(command[1] == "--amend"@);
    } else {
        assert("commit"@.len() != "--amend"@.len());
        assert("--edit"@.len() != "--amend"@.len());
        assert("--message"@.len() != "--amend"@.len());
        assert forall|i: int| 0 <= i < command.len() implies command[i] != "--amend"@ by {}
    }
}

} // verus!
