//! Repositories, and the walk over the members of a virtual one.

use vstd::prelude::*;

use crate::http::{build_dists_response, reply_of, verdict, FileReply, Refusal, RefusalModel, ReplyModel};

verus! {

/// What kind of repository it is.
#[derive(Clone, Copy, Debug, PartialEq, Eq, Structural)]
pub enum RepositoryType {
    /// Holds its own packages.
    Local,
    /// Mirrors an upstream.
    Remote,
    /// Is made of other repositories.
    Virtual,
    /// Holds packages until they are promoted.
    Staging,
}

/// A member of a virtual repository.
#[derive(Debug, PartialEq, Eq)]
pub struct Member {
    pub key: String,
    pub repo_type: RepositoryType,
    pub upstream_url: Option<String>,
}

/// What a `Member` holds.
#[verifier::ext_equal]
pub struct MemberModel {
    pub key: Seq<char>,
    pub repo_type: RepositoryType,
    pub upstream_url: Option<Seq<char>>,
}

impl DeepView for Member {
    type V = MemberModel;

    open spec fn deep_view(&self) -> MemberModel {
        MemberModel {
            key: self.key@,
            repo_type: self.repo_type,
            upstream_url: self.upstream_url.deep_view(),
        }
    }
}

/// Where a member fetches from; only a remote member fetches.
pub open spec fn member_upstream(member: MemberModel) -> Option<Seq<char>> {
    if member.repo_type == RepositoryType::Remote {
        member.upstream_url
    } else {
        None
    }
}

/// Where a member fetches from, if it does.
pub fn remote_member_upstream(member: &Member) -> (r: Option<&str>)
    ensures
        (match r {
            Some(url) => Some(url@),
            None => None,
        }) == member_upstream(member.deep_view()),
{
    if member.repo_type != RepositoryType::Remote {
        return None;
    }
    match &member.upstream_url {
        Some(url) => Some(url.as_str()),
        None => None,
    }
}

/// The first member at or behind `from` that fetches, or the number of members.
pub open spec fn next_remote(members: Seq<MemberModel>, from: nat) -> nat
    decreases members.len() - from,
{
    if from >= members.len() {
        members.len()
    } else if member_upstream(members[from as int]) is Some {
        from
    } else {
        next_remote(members, from + 1)
    }
}

/// The next member to ask, if one is left.
pub fn next_remote_member(members: &Vec<Member>, from: usize) -> (r: Option<usize>)
    ensures
        match r {
            Some(i) => i == next_remote(members.deep_view(), from as nat) && i < members.len(),
            None => next_remote(members.deep_view(), from as nat) == members.len(),
        },
{
    let ghost all = members.deep_view();
    let mut i: usize = from;
    while i < members.len()
        invariant
            from <= i,
            all == members.deep_view(),
            next_remote(all, from as nat) == next_remote(all, i as nat),
        decreases members.len() - i,
    {
        assert(all[i as int] == members[i as int].deep_view());
        if remote_member_upstream(&members[i]).is_some() {
            return Some(i);
        }
        i += 1;
    }
    None
}

/// What a member answered: the file and the content type that came with it, or
/// the refusal.
pub type MemberAnswer = std::result::Result<(Vec<u8>, Option<String>), Refusal>;

/// What a `MemberAnswer` holds.
pub type AnswerModel = std::result::Result<(Seq<u8>, Option<Seq<char>>), RefusalModel>;

/// The walk over the members so far: the first refusal that counts.
#[derive(Debug, PartialEq, Eq)]
pub struct MemberWalk {
    pub first_error: Option<Refusal>,
}

impl DeepView for MemberWalk {
    type V = Option<RefusalModel>;

    open spec fn deep_view(&self) -> Option<RefusalModel> {
        self.first_error.deep_view()
    }
}

/// What comes of asking a member: an answer to the request, or the walk goes on.
#[derive(Debug, PartialEq, Eq)]
pub enum WalkStep {
    /// The file to hand out.
    Found(FileReply),
    /// Ask the next member.
    GoOn(MemberWalk),
}

/// The file that a member's answer becomes.
pub open spec fn member_reply(
    answer: (Seq<u8>, Option<Seq<char>>),
    default_content_type: Seq<char>,
) -> ReplyModel {
    reply_of(
        match answer.1 {
            Some(ct) => ct,
            None => default_content_type,
        },
        answer.0,
    )
}

/// The first refusal that counts after one more. A member that does not have
/// the file is passed over.
pub open spec fn noted(first: Option<RefusalModel>, refusal: RefusalModel) -> Option<RefusalModel> {
    if refusal.status == 404 || first is Some {
        first
    } else {
        Some(refusal)
    }
}

/// What a walk over these answers comes to: the first file, else the first
/// refusal that counts, else nothing.
pub open spec fn walk_result(
    first: Option<RefusalModel>,
    answers: Seq<AnswerModel>,
    default_content_type: Seq<char>,
) -> std::result::Result<Option<ReplyModel>, RefusalModel>
    decreases answers.len(),
{
    if answers.len() == 0 {
        match first {
            Some(refusal) => Err(refusal),
            None => Ok(None),
        }
    } else {
        match answers[0] {
            Ok(file) => Ok(Some(member_reply(file, default_content_type))),
            Err(refusal) => walk_result(
                noted(first, refusal),
                answers.drop_first(),
                default_content_type,
            ),
        }
    }
}

impl MemberWalk {
    /// A walk that has asked nobody.
    pub fn new() -> (r: Self)
        ensures
            r.deep_view() is None,
    {
        MemberWalk { first_error: None }
    }

    /// Takes the answer of a member.
    pub fn took(self, answer: MemberAnswer, default_content_type: &str) -> (r: WalkStep)
        ensures
            match answer {
                Ok((body, ct)) => r matches WalkStep::Found(reply) && reply.deep_view()
                    == member_reply((body@, ct.deep_view()), default_content_type@),
                Err(refusal) => r matches WalkStep::GoOn(walk) && walk.deep_view() == noted(
                    self.deep_view(),
                    refusal.deep_view(),
                ),
            },
    {
        match answer {
            Ok((body, ct)) => WalkStep::Found(
                build_dists_response(body, ct, default_content_type),
            ),
            Err(refusal) => {
                if refusal.status == 404 || self.first_error.is_some() {
                    WalkStep::GoOn(self)
                } else {
                    WalkStep::GoOn(MemberWalk { first_error: Some(refusal) })
                }
            },
        }
    }

    /// Ends a walk in which no member had the file.
    pub fn finish(self) -> (r: std::result::Result<Option<FileReply>, Refusal>)
        ensures
            verdict(r) == walk_result(self.deep_view(), seq![], ""@),
    {
        match self.first_error {
            Some(refusal) => Err(refusal),
            None => Ok(None),
        }
    }
}

// ---------------------------------------------------------------------------
// Laws
// ---------------------------------------------------------------------------

/// A member that does not have the file changes nothing about a walk.
pub proof fn missing_member_is_passed_over(
    first: Option<RefusalModel>,
    refusal: RefusalModel,
    answers: Seq<AnswerModel>,
    ct: Seq<char>,
)
    requires
        refusal.status == 404,
    ensures
        walk_result(first, seq![Err::<(Seq<u8>, Option<Seq<char>>), RefusalModel>(refusal)] + answers, ct)
            == walk_result(first, answers, ct),
{
    let all = seq![Err::<(Seq<u8>, Option<Seq<char>>), RefusalModel>(refusal)] + answers;
    assert(all.drop_first() =~= answers);
}

/// A refusal that counts is never answered with nothing: a walk that hands out
/// no file ends in the first such refusal.
pub proof fn failure_surfaces(
    first: Option<RefusalModel>,
    answers: Seq<AnswerModel>,
    ct: Seq<char>,
    i: int,
)
    requires
        0 <= i < answers.len(),
        answers[i] matches Err(refusal) && refusal.status != 404,
        forall|j: int| 0 <= j < answers.len() ==> (#[trigger] answers[j]) is Err,
    ensures
        walk_result(first, answers, ct) is Err,
    decreases answers.len(),
{
    let next = noted(first, answers[0]->Err_0);
    let rest = answers.drop_first();
    assert(answers[0] is Err);
    assert forall|j: int| 0 <= j < rest.len() implies (#[trigger] rest[j]) is Err by {
        assert(rest[j] == answers[j + 1]);
    }
    if i == 0 {
        walk_keeps_error(next, rest, ct);
    } else {
        assert(rest[i - 1] == answers[i]);
        failure_surfaces(next, rest, ct, i - 1);
    }
}

proof fn walk_keeps_error(first: Option<RefusalModel>, answers: Seq<AnswerModel>, ct: Seq<char>)
    requires
        first is Some,
        forall|j: int| 0 <= j < answers.len() ==> (#[trigger] answers[j]) is Err,
    ensures
        walk_result(first, answers, ct) == Err::<Option<ReplyModel>, RefusalModel>(first->0),
    decreases answers.len(),
{
    if answers.len() > 0 {
        let rest = answers.drop_first();
        assert(answers[0] is Err);
        assert forall|j: int| 0 <= j < rest.len() implies (#[trigger] rest[j]) is Err by {
            assert(rest[j] == answers[j + 1]);
        }
        walk_keeps_error(noted(first, answers[0]->Err_0), rest, ct);
    }
}

/// The first member that has the file answers the request, whatever the members
/// before it said.
pub proof fn first_file_answers(
    first: Option<RefusalModel>,
    answers: Seq<AnswerModel>,
    ct: Seq<char>,
    i: int,
)
    requires
        0 <= i < answers.len(),
        answers[i] is Ok,
        forall|j: int| 0 <= j < i ==> (#[trigger] answers[j]) is Err,
    ensures
        walk_result(first, answers, ct) == Ok::<Option<ReplyModel>, RefusalModel>(
            Some(member_reply(answers[i]->Ok_0, ct)),
        ),
    decreases answers.len(),
{
    if i > 0 {
        let rest = answers.drop_first();
        assert(answers[0] is Err);
        assert(rest[i - 1] == answers[i]);
        assert forall|j: int| 0 <= j < i - 1 implies (#[trigger] rest[j]) is Err by {
            assert(rest[j] == answers[j + 1]);
        }
        first_file_answers(noted(first, answers[0]->Err_0), rest, ct, i - 1);
    }
}

} // verus!
