//! Setting Stow up: a bucket is made and the configuration is written.

use vstd::prelude::*;

use crate::config;
use crate::config::{Config, ConfigView, Policy, PolicyView};
use crate::effects;
use crate::effects::{Action, ActionView, Flow, Reply, ReplyView, Step, StepView};
use crate::error::{Fault, StowError};
use crate::s3;
use crate::s3::{Creds, CredsView, Remote, RemoteView};
use crate::text;

verus! {

/// What came of setting Stow up.
pub struct InitResult {
    pub bucket: String,
    pub region: String,
    pub account: String,
    /// Whether the bucket is new.
    pub created: bool,
}

/// The content of an `InitResult`.
pub struct InitResultView {
    pub bucket: Seq<char>,
    pub region: Seq<char>,
    pub account: Seq<char>,
    pub created: bool,
}

impl View for InitResult {
    type V = InitResultView;

    open spec fn view(&self) -> InitResultView {
        InitResultView {
            bucket: self.bucket@,
            region: self.region@,
            account: self.account@,
            created: self.created,
        }
    }
}

/// What the setup is waiting for.
#[derive(Clone, Copy, Debug)]
pub enum InitPhase {
    /// The account.
    Account,
    /// The credentials.
    Creds,
    /// Whether there was a bucket before.
    Bucket,
    /// Whether there is a bucket.
    Ensure,
    /// The new bucket.
    Create,
    /// The configuration.
    Save,
    /// The index.
    Index,
    /// Nothing more.
    Over,
}

/// Stow while it is set up. What is not known yet is empty.
pub struct Init {
    phase: InitPhase,
    region: String,
    policy: Policy,
    account: String,
    bucket: String,
    creds: Option<Creds>,
    existed: bool,
}

/// The content of an `Init`.
pub struct InitView {
    pub phase: InitPhase,
    pub region: Seq<char>,
    pub policy: PolicyView,
    pub account: Seq<char>,
    pub bucket: Seq<char>,
    pub creds: Option<CredsView>,
    pub existed: bool,
}

impl View for Init {
    type V = InitView;

    closed spec fn view(&self) -> InitView {
        InitView {
            phase: self.phase,
            region: self.region@,
            policy: self.policy@,
            account: self.account@,
            bucket: self.bucket@,
            creds: s3::creds_opt(self.creds),
            existed: self.existed,
        }
    }
}

impl InitView {
    /// A setup that has not begun.
    pub open spec fn fresh(region: Seq<char>, policy: PolicyView) -> InitView {
        InitView {
            phase: InitPhase::Account,
            region,
            policy,
            account: Seq::empty(),
            bucket: Seq::empty(),
            creds: None,
            existed: false,
        }
    }

    /// Where objects are to be kept.
    pub open spec fn remote(self) -> RemoteView {
        RemoteView { bucket: self.bucket, region: self.region, creds: self.creds }
    }

    /// The configuration to write.
    pub open spec fn config(self) -> ConfigView {
        ConfigView {
            bucket: self.bucket,
            region: self.region,
            prefix: "objects/"@,
            policy: self.policy,
            access_key_id: match self.creds {
                Some(c) => Some(c.access_key_id),
                None => None,
            },
            secret_access_key: match self.creds {
                Some(c) => Some(c.secret_access_key),
                None => None,
            },
            session_token: match self.creds {
                Some(c) => c.session_token,
                None => None,
            },
        }
    }

    /// Asks for an action and waits for what comes of it.
    pub open spec fn ask(self, phase: InitPhase, a: ActionView) -> (
        InitView,
        StepView<InitResultView>,
    ) {
        (InitView { phase, ..self }, StepView::Ask(a))
    }

    /// Ends with an outcome.
    pub open spec fn end(self, r: Result<InitResultView, Fault>) -> (InitView, StepView<InitResultView>) {
        (InitView { phase: InitPhase::Over, ..self }, StepView::End(r))
    }

    /// Writes the configuration.
    pub open spec fn save(self) -> (InitView, StepView<InitResultView>) {
        self.ask(InitPhase::Save, ActionView::SaveConfig { cfg: self.config() })
    }

    /// What the setup does when `reply` comes in.
    pub open spec fn respond(self, reply: ReplyView) -> (InitView, StepView<InitResultView>) {
        match (self.phase, reply) {
            (InitPhase::Account, ReplyView::Text(r)) => match r {
                Err(e) => self.end(Err(e)),
                Ok(account) => InitView {
                    account,
                    bucket: config::bucket_name(account + "-"@ + self.region),
                    ..self
                }.ask(InitPhase::Creds, ActionView::ResolveCreds { region: self.region }),
            },
            (InitPhase::Creds, ReplyView::Creds(creds)) => {
                let s = InitView { creds, ..self };
                s.ask(InitPhase::Bucket, ActionView::HeadBucket { at: s.remote() })
            },
            (InitPhase::Bucket, ReplyView::Found(r)) => match r {
                Err(e) => self.end(Err(e)),
                Ok(found) => InitView { existed: found, ..self }.ask(
                    InitPhase::Ensure,
                    ActionView::HeadBucket { at: self.remote() },
                ),
            },
            (InitPhase::Ensure, ReplyView::Found(r)) => match r {
                Err(e) => self.end(Err(e)),
                Ok(true) => self.save(),
                Ok(false) => self.ask(
                    InitPhase::Create,
                    ActionView::CreateBucket {
                        at: self.remote(),
                        location: s3::location_of(self.region),
                    },
                ),
            },
            (InitPhase::Create, ReplyView::Wrote(r)) => match s3::creation_outcome(
                self.bucket,
                r,
            ) {
                Err(e) => self.end(Err(e)),
                Ok(_) => self.save(),
            },
            (InitPhase::Save, ReplyView::Done(r)) => match r {
                Err(e) => self.end(Err(e)),
                Ok(_) => self.ask(InitPhase::Index, ActionView::OpenIndex),
            },
            (InitPhase::Index, ReplyView::Done(r)) => match r {
                Err(e) => self.end(Err(e)),
                Ok(_) => self.end(
                    Ok(
                        InitResultView {
                            bucket: self.bucket,
                            region: self.region,
                            account: self.account,
                            created: !self.existed,
                        },
                    ),
                ),
            },
            _ => self.end(Err(effects::stray())),
        }
    }
}

impl Flow for InitView {
    type Out = InitResultView;

    open spec fn next(self, reply: ReplyView) -> (InitView, StepView<InitResultView>) {
        self.respond(reply)
    }
}

/// Begins to set Stow up in a region, with a policy.
pub fn init_with(region: String, policy: Policy) -> (r: (Init, Step<InitResult>))
    ensures
        r.0@ == InitView::fresh(region@, policy@),
        r.1@ == StepView::<InitResultView>::Ask(ActionView::AccountId { region: region@ }),
        (r.0@, r.1@) == crate::laws::init_start(region@, policy@),
{
    let a = Action::AccountId { region: region.clone() };
    let f = Init {
        phase: InitPhase::Account,
        region,
        policy,
        account: String::new(),
        bucket: String::new(),
        creds: None,
        existed: false,
    };
    (f, Step::Ask(a))
}

/// Begins to set Stow up with the default policy. Without a region, the one that the
/// two settings name is taken.
pub fn init(
    region_arg: Option<String>,
    aws_region: Option<String>,
    aws_default_region: Option<String>,
) -> (r: (Init, Step<InitResult>))
    ensures
        exists|home: Seq<char>|
            r.0@ == InitView::fresh(
                chosen_region(region_arg, aws_region, aws_default_region),
                #[trigger] config::standard_policy(home),
            ),
        r.1@ == StepView::<InitResultView>::Ask(
            ActionView::AccountId {
                region: chosen_region(region_arg, aws_region, aws_default_region),
            },
        ),
{
    let region = match region_arg {
        Some(x) => x,
        None => config::default_region(aws_region, aws_default_region),
    };
    init_with(region, Policy::default())
}

/// The region that Stow is set up in.
pub open spec fn chosen_region(
    region_arg: Option<String>,
    aws_region: Option<String>,
    aws_default_region: Option<String>,
) -> Seq<char> {
    if region_arg is Some {
        region_arg->0@
    } else if aws_region is Some {
        aws_region->0@
    } else if aws_default_region is Some {
        aws_default_region->0@
    } else {
        "us-east-1"@
    }
}

impl Init {
    fn ask(&mut self, phase: InitPhase, a: Action) -> (r: Step<InitResult>)
        ensures
            (final(self)@, r@) == old(self)@.ask(phase, a@),
    {
        self.phase = phase;
        Step::Ask(a)
    }

    fn fail(&mut self, e: StowError) -> (r: Step<InitResult>)
        ensures
            (final(self)@, r@) == old(self)@.end(Err(e@)),
    {
        self.phase = InitPhase::Over;
        Step::End(Err(e))
    }

    fn remote(&self) -> (r: Remote)
        ensures
            r@ == self@.remote(),
    {
        Remote {
            bucket: self.bucket.clone(),
            region: self.region.clone(),
            creds: match &self.creds {
                Some(c) => Some(c.clone()),
                None => None,
            },
        }
    }

    fn config(&self) -> (r: Config)
        ensures
            r@ == self@.config(),
    {
        let (access_key_id, secret_access_key, session_token) = match &self.creds {
            Some(c) => (
                Some(c.access_key_id.clone()),
                Some(c.secret_access_key.clone()),
                c.session_token.clone(),
            ),
            None => (None, None, None),
        };
        Config {
            bucket: self.bucket.clone(),
            region: self.region.clone(),
            prefix: config::default_prefix(),
            policy: self.policy.clone(),
            access_key_id,
            secret_access_key,
            session_token,
        }
    }

    fn save(&mut self) -> (r: Step<InitResult>)
        ensures
            (final(self)@, r@) == old(self)@.save(),
    {
        let a = Action::SaveConfig { cfg: self.config() };
        self.ask(InitPhase::Save, a)
    }

    /// Takes what came of the action that was asked for, and says what is next.
    #[verifier::spinoff_prover]
    #[verifier::rlimit(40)]
    pub fn step(&mut self, reply: Reply) -> (r: Step<InitResult>)
        ensures
            (final(self)@, r@) == old(self)@.respond(reply@),
    {
        match (self.phase, reply) {
            (InitPhase::Account, Reply::Text(account)) => match account {
                Err(e) => self.fail(e),
                Ok(account) => {
                    let token = text::cat3(account.as_str(), "-", self.region.as_str());
                    self.bucket = config::derive_bucket_name(token.as_str());
                    self.account = account;
                    let a = Action::ResolveCreds { region: self.region.clone() };
                    self.ask(InitPhase::Creds, a)
                },
            },
            (InitPhase::Creds, Reply::Creds(creds)) => {
                self.creds = creds;
                let a = Action::HeadBucket { at: self.remote() };
                self.ask(InitPhase::Bucket, a)
            },
            (InitPhase::Bucket, Reply::Found(found)) => match found {
                Err(e) => self.fail(e),
                Ok(there) => {
                    self.existed = there;
                    let a = Action::HeadBucket { at: self.remote() };
                    self.ask(InitPhase::Ensure, a)
                },
            },
            (InitPhase::Ensure, Reply::Found(found)) => match found {
                Err(e) => self.fail(e),
                Ok(there) => if there {
                    self.save()
                } else {
                    let a = Action::CreateBucket {
                        at: self.remote(),
                        location: s3::bucket_location(self.region.as_str()),
                    };
                    self.ask(InitPhase::Create, a)
                },
            },
            (InitPhase::Create, Reply::Wrote(done)) => {
                match s3::bucket_created(self.bucket.as_str(), done) {
                    Err(e) => self.fail(e),
                    Ok(_) => self.save(),
                }
            },
            (InitPhase::Save, Reply::Done(done)) => match done {
                Err(e) => self.fail(e),
                Ok(_) => self.ask(InitPhase::Index, Action::OpenIndex),
            },
            (InitPhase::Index, Reply::Done(done)) => match done {
                Err(e) => self.fail(e),
                Ok(_) => {
                    self.phase = InitPhase::Over;
                    Step::End(
                        Ok(
                            InitResult {
                                bucket: self.bucket.clone(),
                                region: self.region.clone(),
                                account: self.account.clone(),
                                created: !self.existed,
                            },
                        ),
                    )
                },
            },
            _ => self.fail(effects::stray_reply()),
        }
    }
}

} // verus!
