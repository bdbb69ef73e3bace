//! Laws of setting Stow up: what is written down, and what is reported.

use vstd::prelude::*;

use crate::config;
use crate::config::{ConfigView, PolicyView};
use crate::effects;
use crate::effects::{ActionView, ReplyView, StepView};
use crate::error::Fault;
use crate::init;
use crate::init::InitResultView;
use crate::laws;
use crate::s3::{CredsView, RemoteView};

verus! {

/// How far a setup has come: what it was told, and when.
spec fn told(region: Seq<char>, policy: PolicyView, replies: Seq<ReplyView>) -> bool {
    let start = laws::init_start(region, policy);
    let (s, step) = effects::run(start, replies);
    let past_account = !(s.phase is Account || s.phase is Over);
    let past_creds = past_account && !(s.phase is Creds);
    let past_bucket = past_creds && !(s.phase is Bucket);
    &&& s.region == region
    &&& s.policy == policy
    &&& s.phase is Account ==> replies.len() == 0
    &&& s.phase is Account ==> step == StepView::<InitResultView>::Ask(
        ActionView::AccountId { region },
    )
    &&& past_account ==> {
        &&& replies.len() >= 1
        &&& replies[0] == ReplyView::Text(Ok(s.account))
        &&& s.bucket == config::bucket_name(s.account + "-"@ + region)
        &&& effects::happened(
            start,
            replies,
            ActionView::AccountId { region },
            ReplyView::Text(Ok(s.account)),
        )
    }
    &&& s.phase is Creds ==> replies.len() == 1 && step == StepView::<InitResultView>::Ask(
        ActionView::ResolveCreds { region },
    )
    &&& past_creds ==> {
        &&& replies.len() >= 2
        &&& replies[1] == ReplyView::Creds(s.creds)
        &&& effects::happened(
            start,
            replies,
            ActionView::ResolveCreds { region },
            ReplyView::Creds(s.creds),
        )
    }
    &&& s.phase is Bucket ==> replies.len() == 2 && step == StepView::<InitResultView>::Ask(
        ActionView::HeadBucket { at: s.remote() },
    )
    &&& past_bucket ==> {
        &&& replies.len() >= 3
        &&& replies[2] == ReplyView::Found(Ok(s.existed))
        &&& effects::happened(
            start,
            replies,
            ActionView::HeadBucket { at: s.remote() },
            ReplyView::Found(Ok(s.existed)),
        )
    }
    &&& s.phase is Ensure ==> step == StepView::<InitResultView>::Ask(
        ActionView::HeadBucket { at: s.remote() },
    )
    &&& s.phase is Create ==> {
        &&& step is Ask
        &&& step->Ask_0 is CreateBucket
        &&& step->Ask_0->CreateBucket_at == s.remote()
    }
    &&& s.phase is Save ==> step == StepView::<InitResultView>::Ask(
        ActionView::SaveConfig { cfg: s.config() },
    )
    &&& s.phase is Index ==> {
        &&& step == StepView::<InitResultView>::Ask(ActionView::OpenIndex)
        &&& effects::happened(
            start,
            replies,
            ActionView::SaveConfig { cfg: s.config() },
            ReplyView::Done(Ok(())),
        )
    }
    &&& s.phase is Over ==> step is End
    &&& step matches StepView::End(Ok(res)) ==> reported(region, policy, replies, res)
}

/// Whether a result is what the replies amount to.
spec fn reported(
    region: Seq<char>,
    policy: PolicyView,
    replies: Seq<ReplyView>,
    res: InitResultView,
) -> bool {
    &&& res.region == region
    &&& replies.len() >= 3
    &&& replies[0] == ReplyView::Text(Ok(res.account))
    &&& replies[2] == ReplyView::Found(Ok(!res.created))
    &&& exists|cfg: ConfigView|
        #[trigger] effects::happened(
            laws::init_start(region, policy),
            replies,
            ActionView::SaveConfig { cfg },
            ReplyView::Done(Ok(())),
        ) && cfg.bucket == res.bucket && cfg.region == res.region
}

#[verifier::spinoff_prover]
#[verifier::rlimit(60)]
proof fn lemma_told(region: Seq<char>, policy: PolicyView, replies: Seq<ReplyView>)
    ensures
        told(region, policy, replies),
    decreases replies.len(),
{
    let start = laws::init_start(region, policy);
    if replies.len() > 0 {
        let front = replies.drop_last();
        let reply = replies.last();
        lemma_told(region, policy, front);
        effects::lemma_happened(start, replies);
        let (s, step) = effects::run(start, front);
        let (t, next) = s.respond(reply);
        assert(effects::run(start, replies) == (t, next));
        assert forall|i: int| 0 <= i < front.len() implies front[i] == replies[i] by {}
        if s.phase is Save && reply is Done && reply->Done_0 is Ok {
            assert(reply->Done_0->Ok_0 == ());
            assert(t.config() == s.config());
        }
        if s.phase is Index && reply is Done && reply->Done_0 is Ok {
            assert(next is End && next->End_0 is Ok);
            assert(effects::happened(
                start,
                replies,
                ActionView::SaveConfig { cfg: s.config() },
                ReplyView::Done(Ok(())),
            ));
            assert(reported(region, policy, replies, next->End_0->Ok_0));
        }
        assert(t.remote() == s.remote() || s.phase is Account || s.phase is Creds);
    }
}

/// What is written down when Stow is set up is what it was told: the region and the policy
/// that were asked for, the name that the account and the region give the bucket, and the
/// credentials that were resolved, each part of them. So requests are made later with just
/// the credentials that were found, wherever both parts of their key are there.
pub proof fn law_setup_keeps_what_it_was_told(
    region: Seq<char>,
    policy: PolicyView,
    replies: Seq<ReplyView>,
    cfg: ConfigView,
)
    requires
        effects::run(laws::init_start(region, policy), replies).1 == StepView::<
            InitResultView,
        >::Ask(ActionView::SaveConfig { cfg }),
    ensures
        cfg.region == region,
        cfg.policy == policy,
        cfg.prefix == "objects/"@,
        exists|account: Seq<char>|
            #[trigger] effects::happened(
                laws::init_start(region, policy),
                replies,
                ActionView::AccountId { region },
                ReplyView::Text(Ok(account)),
            ) && cfg.bucket == config::bucket_name(account + "-"@ + region),
        exists|creds: Option<CredsView>|
            #[trigger] effects::happened(
                laws::init_start(region, policy),
                replies,
                ActionView::ResolveCreds { region },
                ReplyView::Creds(creds),
            ) && (creds is None ==> cfg.access_key_id is None && cfg.secret_access_key is None
                && cfg.session_token is None && cfg.usable_creds() is None) && (creds is Some ==> {
                &&& cfg.access_key_id == Some(creds->0.access_key_id)
                &&& cfg.secret_access_key == Some(creds->0.secret_access_key)
                &&& cfg.session_token == creds->0.session_token
                &&& creds->0.access_key_id.len() > 0 && creds->0.secret_access_key.len() > 0
                    ==> cfg.usable_creds() == creds
            }),
{
    lemma_told(region, policy, replies);
    let start = laws::init_start(region, policy);
    let s = effects::run(start, replies).0;
    assert(effects::happened(
        start,
        replies,
        ActionView::AccountId { region },
        ReplyView::Text(Ok(s.account)),
    ));
    assert(effects::happened(
        start,
        replies,
        ActionView::ResolveCreds { region },
        ReplyView::Creds(s.creds),
    ));
}

/// The bucket is looked for and made with the credentials that were resolved, in the region
/// that was asked for, and under the name that is written down later.
pub proof fn law_setup_works_on_its_own_bucket(
    region: Seq<char>,
    policy: PolicyView,
    replies: Seq<ReplyView>,
    at: RemoteView,
)
    requires
        ({
            let step = effects::run(laws::init_start(region, policy), replies).1;
            &&& step is Ask
            &&& step->Ask_0 == (ActionView::HeadBucket { at }) || (step->Ask_0 is CreateBucket
                && step->Ask_0->CreateBucket_at == at)
        }),
    ensures
        at.region == region,
        replies.len() >= 2,
        replies[0] is Text,
        replies[0]->Text_0 is Ok,
        at.bucket == config::bucket_name(replies[0]->Text_0->Ok_0 + "-"@ + region),
        replies[1] == ReplyView::Creds(at.creds),
{
    lemma_told(region, policy, replies);
}

/// A bucket outside `us-east-1` is made with its region as its location; one in `us-east-1`
/// is made with none.
pub proof fn law_buckets_are_made_in_their_region(
    region: Seq<char>,
    policy: PolicyView,
    replies: Seq<ReplyView>,
    at: RemoteView,
    location: Option<Seq<char>>,
)
    requires
        effects::run(laws::init_start(region, policy), replies).1 == StepView::<
            InitResultView,
        >::Ask(ActionView::CreateBucket { at, location }),
    ensures
        region == "us-east-1"@ ==> location is None,
        region != "us-east-1"@ ==> location == Some(region),
        replies.last() == ReplyView::Found(Ok(false)),
{
    lemma_told(region, policy, replies);
    let start = laws::init_start(region, policy);
    if replies.len() > 0 {
        lemma_told(region, policy, replies.drop_last());
        let s = effects::run(start, replies.drop_last()).0;
        assert(effects::run(start, replies) == s.respond(replies.last()));
    }
}

/// What a setup reports is what it did: the account that was answered, the bucket and region
/// of the configuration that was written, and whether the bucket was missing when it was
/// first looked for.
pub proof fn law_setup_reports_what_it_did(
    region: Seq<char>,
    policy: PolicyView,
    replies: Seq<ReplyView>,
    res: InitResultView,
)
    requires
        effects::run(laws::init_start(region, policy), replies).1 == StepView::<
            InitResultView,
        >::End(Ok(res)),
    ensures
        res.region == region,
        replies[0] == ReplyView::Text(Ok(res.account)),
        replies[2] == ReplyView::Found(Ok(!res.created)),
        exists|cfg: ConfigView|
            #[trigger] effects::happened(
                laws::init_start(region, policy),
                replies,
                ActionView::SaveConfig { cfg },
                ReplyView::Done(Ok(())),
            ) && cfg.bucket == res.bucket && cfg.region == res.region,
{
    lemma_told(region, policy, replies);
}

/// A setup ends with the first error that it is answered, and with no other of the host's.
pub proof fn law_setup_passes_errors_on(
    region: Seq<char>,
    policy: PolicyView,
    replies: Seq<ReplyView>,
    e: Fault,
)
    requires
        effects::run(laws::init_start(region, policy), replies).1 is Ask,
    ensures
        ({
            let start = laws::init_start(region, policy);
            let asked = effects::run(start, replies).1->Ask_0;
            let told = |reply: ReplyView| effects::run(start, replies.push(reply)).1;
            &&& asked is AccountId ==> told(ReplyView::Text(Err(e))) == StepView::<
                InitResultView,
            >::End(Err(e))
            &&& asked is HeadBucket ==> told(ReplyView::Found(Err(e))) == StepView::<
                InitResultView,
            >::End(Err(e))
            &&& asked is SaveConfig || asked is OpenIndex ==> told(ReplyView::Done(Err(e)))
                == StepView::<InitResultView>::End(Err(e))
        }),
{
    let start = laws::init_start(region, policy);
    lemma_told(region, policy, replies);
    let s = effects::run(start, replies).0;
    assert forall|reply: ReplyView| #[trigger]
        effects::run(start, replies.push(reply)) == s.respond(reply) by {
        assert(replies.push(reply).drop_last() =~= replies);
        assert(replies.push(reply).last() == reply);
    }
}

/// The region is the one that is asked for, whatever the settings say; without one it is that of
/// the first setting, whatever the second says, then that of the second, and `us-east-1` where
/// nothing names one.
pub proof fn law_the_nearest_region_counts(x: String, y: String, a: Option<String>, b: Option<String>)
    ensures
        init::chosen_region(Some(x), a, b) == x@,
        init::chosen_region(None, Some(y), b) == y@,
        init::chosen_region(None, None, Some(y)) == y@,
        init::chosen_region(None, None, None) == "us-east-1"@,
{
}

/// Where everything works, Stow is set up: every step that works leads to the next. A bucket that
/// is missing is made first.
#[verifier::spinoff_prover]
#[verifier::rlimit(40)]
pub proof fn law_setup_goes_on_to_the_end(
    region: Seq<char>,
    policy: PolicyView,
    replies: Seq<ReplyView>,
    account: Seq<char>,
    creds: Option<CredsView>,
    found: bool,
)
    requires
        effects::run(laws::init_start(region, policy), replies).1 is Ask,
    ensures
        ({
            let start = laws::init_start(region, policy);
            let a = effects::run(start, replies).1->Ask_0;
            let told = |reply: ReplyView| effects::run(start, replies.push(reply)).1;
            &&& a is AccountId ==> told(ReplyView::Text(Ok(account))) == StepView::<
                InitResultView,
            >::Ask(ActionView::ResolveCreds { region })
            &&& a is ResolveCreds ==> told(ReplyView::Creds(creds)) is Ask && told(
                ReplyView::Creds(creds),
            )->Ask_0 is HeadBucket
            &&& a is HeadBucket && replies.len() == 2 ==> told(ReplyView::Found(Ok(found)))
                == effects::run(start, replies).1
            &&& a is HeadBucket && replies.len() == 3 ==> told(ReplyView::Found(Ok(found))) is Ask
                && told(ReplyView::Found(Ok(true)))->Ask_0 is SaveConfig && told(
                ReplyView::Found(Ok(false)),
            )->Ask_0 is CreateBucket
            &&& a is CreateBucket ==> told(ReplyView::Wrote(Ok(()))) is Ask && told(
                ReplyView::Wrote(Ok(())),
            )->Ask_0 is SaveConfig
            &&& a is SaveConfig ==> told(ReplyView::Done(Ok(()))) == StepView::<
                InitResultView,
            >::Ask(ActionView::OpenIndex)
            &&& a is OpenIndex ==> told(ReplyView::Done(Ok(()))) is End && told(
                ReplyView::Done(Ok(())),
            )->End_0 is Ok
        }),
{
    let start = laws::init_start(region, policy);
    lemma_told(region, policy, replies);
    let s = effects::run(start, replies).0;
    assert forall|reply: ReplyView| #[trigger]
        effects::run(start, replies.push(reply)) == s.respond(reply) by {
        assert(replies.push(reply).drop_last() =~= replies);
        assert(replies.push(reply).last() == reply);
    }
}

} // verus!
