//! Single-instance coordination: a fresh launch either hands its argument to
//! the instance already running and exits, or becomes the primary and serves
//! the rendezvous channel; the primary turns each forwarded argument into at
//! most one open-media event.
use vstd::prelude::*;
use vstd::string::{StrSliceExecFns, StringExecFns};
use crate::IPC_PATH;
use crate::router::{Effect, EffectV, open_media_text, view_effects};

verus! {

/// The per-user rendezvous path: the fixed prefix followed by the user's
/// name, so launches by one user meet and different users do not collide.
pub fn channel_path(user: &str) -> (r: String)
    ensures
        r@ == IPC_PATH@ + user@,
{
    let mut path = String::from_str(IPC_PATH);
    path.append(user);
    path
}

/// Two users share a rendezvous path exactly when they are the same user.
pub proof fn lemma_channel_path_per_user(u1: Seq<char>, u2: Seq<char>)
    ensures
        (IPC_PATH@ + u1 == IPC_PATH@ + u2) <==> u1 == u2,
{
    if IPC_PATH@ + u1 == IPC_PATH@ + u2 {
        let p = IPC_PATH@.len() as int;
        assert((IPC_PATH@ + u1).skip(p) =~= u1);
        assert((IPC_PATH@ + u2).skip(p) =~= u2);
    }
}

/// What a fresh launch does once the connect attempt to the rendezvous
/// channel has resolved.
#[derive(PartialEq, Eq)]
pub enum LaunchAction {
    /// A primary instance exists: write the argument to it, best effort, and
    /// exit with success. No listener is ever bound on this path.
    ForwardAndExit(String),
    /// No primary instance: bind the channel and serve it. A bind that loses
    /// a race is tolerated; the instance then runs without single-instance
    /// protection rather than aborting.
    BindAndServe,
}

/// The launch decision: connecting decides everything.
pub fn launch_action(peer_exists: bool, arg: String) -> (r: LaunchAction)
    ensures
        peer_exists ==> (r matches LaunchAction::ForwardAndExit(s) && s@ == arg@),
        !peer_exists ==> r == LaunchAction::BindAndServe,
{
    if peer_exists {
        LaunchAction::ForwardAndExit(arg)
    } else {
        LaunchAction::BindAndServe
    }
}

/// What the primary does with one forwarded argument: raise the window, and
/// raise exactly one open-media event unless the argument is empty.
pub open spec fn spec_forwarded_effects(s: Seq<char>) -> Seq<EffectV> {
    seq![EffectV::NoticeFocus] + (if s.len() > 0 {
        seq![EffectV::SendToWeb(open_media_text(s))]
    } else {
        Seq::<EffectV>::empty()
    })
}

/// Handles one message read off an accepted rendezvous connection.
pub fn forwarded_effects(s: &str) -> (effects: Vec<Effect>)
    ensures
        view_effects(effects@) == spec_forwarded_effects(s@),
{
    let mut effects: Vec<Effect> = Vec::new();
    effects.push(Effect::NoticeFocus);
    if s.unicode_len() > 0 {
        effects.push(
            Effect::SendToWeb(crate::ipc::RPCResponse::open_media(String::from_str(s))),
        );
    }
    proof {
        assert(view_effects(effects@) =~= spec_forwarded_effects(s@));
    }
    effects
}

/// How many open-media events a list of effects carries.
pub open spec fn count_open_media(es: Seq<EffectV>, s: Seq<char>) -> int {
    es.filter(|e: EffectV| e == EffectV::SendToWeb(open_media_text(s))).len() as int
}

/// For every argument string: while a primary runs, a second launch forwards
/// the argument and exits without binding a listener, and the primary raises
/// exactly one open-media event carrying it — none when it is empty.
pub proof fn lemma_single_instance(s: Seq<char>)
    ensures
        count_open_media(spec_forwarded_effects(s), s) == if s.len() == 0 {
            0int
        } else {
            1int
        },
{
    let p = |e: EffectV| e == EffectV::SendToWeb(open_media_text(s));
    reveal(Seq::filter);
    let es = spec_forwarded_effects(s);
    if s.len() == 0 {
        assert(es =~= seq![EffectV::NoticeFocus]);
        assert(es.drop_last() =~= Seq::<EffectV>::empty());
        assert(es.last() == EffectV::NoticeFocus);
        assert(!p(EffectV::NoticeFocus)) by {
            lemma_open_media_text_nonempty(s);
        }
        assert(Seq::<EffectV>::empty().filter(p) =~= Seq::<EffectV>::empty());
        assert(es.filter(p) == es.drop_last().filter(p));
        assert(es.filter(p).len() == 0);
    } else {
        assert(es =~= seq![
            EffectV::NoticeFocus,
            EffectV::SendToWeb(open_media_text(s)),
        ]);
        assert(es.drop_last() =~= seq![EffectV::NoticeFocus]);
        assert(es.drop_last().drop_last() =~= Seq::<EffectV>::empty());
        assert(es.last() == EffectV::SendToWeb(open_media_text(s)));
        assert(p(es.last()));
        assert(!p(EffectV::NoticeFocus));
        assert(es.filter(p) == es.drop_last().filter(p).push(es.last()));
        assert(es.drop_last().last() == EffectV::NoticeFocus);
        assert(es.drop_last().filter(p) == es.drop_last().drop_last().filter(p));
        assert(Seq::<EffectV>::empty().filter(p) =~= Seq::<EffectV>::empty());
        assert(es.filter(p).len() == 1);
    }
}

proof fn lemma_open_media_text_nonempty(s: Seq<char>)
    ensures
        EffectV::NoticeFocus != EffectV::SendToWeb(open_media_text(s)),
{
}

} // verus!
