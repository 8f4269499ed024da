//! Whether all devices of all users of a room are verified.
use vstd::prelude::*;
use crate::error::RoomError;
use crate::values::{Device, Step};

verus! {

/// Whether all of `devices` are verified.
pub open spec fn all_verified(devices: Seq<Device>) -> bool {
    forall|i: int| 0 <= i < devices.len() ==> (#[trigger] devices[i]).verified
}

/// A look at the devices of the users of a room, one user after the other. It
/// waits for the devices of one user.
#[derive(Debug)]
pub struct DevicesCall {
    user_ids: Vec<String>,
    next: usize,
}

impl DevicesCall {
    /// The users of the room.
    pub closed spec fn user_ids(self) -> Seq<String> {
        self.user_ids@
    }

    /// How many users have been looked at.
    pub closed spec fn looked_at(self) -> nat {
        self.next as nat
    }

    /// Whether there is a user left to look at.
    pub open spec fn wf(self) -> bool {
        self.looked_at() < self.user_ids().len()
    }

    /// Whether `step` is where a look at `user_ids` has come to when all devices
    /// of the first `n` users are verified.
    pub open spec fn reached<F>(
        step: Step<DevicesCall, Result<bool, RoomError<F>>>,
        user_ids: Seq<String>,
        n: nat,
    ) -> bool {
        match step {
            Step::Perform(call) => n < user_ids.len() && call.user_ids() == user_ids
                && call.looked_at() == n,
            Step::Done(answer) => n == user_ids.len() && answer == Ok::<bool, RoomError<F>>(true),
        }
    }

    /// Whether `step` follows when the user that is looked at has `devices`.
    pub open spec fn followed_by<F>(
        self,
        devices: Seq<Device>,
        step: Step<DevicesCall, Result<bool, RoomError<F>>>,
    ) -> bool {
        if all_verified(devices) {
            Self::reached(step, self.user_ids(), self.looked_at() + 1)
        } else {
            step == Step::<DevicesCall, Result<bool, RoomError<F>>>::Done(Ok(false))
        }
    }

    /// Starts to look at the devices of the users that the store holds of the
    /// room.
    pub fn begin<F>(user_ids: Result<Vec<String>, F>) -> (res: Step<
        DevicesCall,
        Result<bool, RoomError<F>>,
    >)
        ensures
            match user_ids {
                Ok(user_ids) => {
                    &&& Self::reached(res, user_ids@, 0)
                    &&& match res {
                        Step::Perform(call) => {
                            &&& user_ids@.len() > 0
                            &&& call.user_ids() == user_ids@
                            &&& call.looked_at() == 0
                        },
                        Step::Done(answer) => {
                            &&& user_ids@.len() == 0
                            &&& answer == Ok::<bool, RoomError<F>>(true)
                        },
                    }
                },
                Err(failure) => res == Step::<DevicesCall, Result<bool, RoomError<F>>>::Done(
                    Err(RoomError::StateStore(failure)),
                ),
            },
    {
        match user_ids {
            Ok(user_ids) => {
                if user_ids.len() == 0 {
                    Step::Done(Ok(true))
                } else {
                    Step::Perform(DevicesCall { user_ids, next: 0 })
                }
            },
            Err(failure) => Step::Done(Err(RoomError::StateStore(failure))),
        }
    }

    /// The user to look at.
    pub fn user_id(&self) -> (user_id: &str)
        requires
            self.wf(),
        ensures
            user_id@ == self.user_ids()[self.looked_at() as int]@,
    {
        self.user_ids[self.next].as_str()
    }

    /// Goes on with the devices of the user [`user_id`](Self::user_id). At the
    /// first user with a device that is not verified the look is over.
    pub fn devices_loaded<F>(self, devices: Result<Vec<Device>, F>) -> (res: Step<
        DevicesCall,
        Result<bool, RoomError<F>>,
    >)
        requires
            self.wf(),
        ensures
            match devices {
                Ok(devices) => {
                    &&& self.followed_by(devices@, res)
                    &&& (exists|d: int|
                        0 <= d < devices@.len() && !(#[trigger] devices@[d]).verified) ==> res
                        == Step::<DevicesCall, Result<bool, RoomError<F>>>::Done(Ok(false))
                    &&& (forall|d: int|
                        0 <= d < devices@.len() ==> (#[trigger] devices@[d]).verified) ==> match res {
                        Step::Perform(call) => {
                            &&& call.user_ids() == self.user_ids()
                            &&& call.looked_at() == self.looked_at() + 1
                            &&& call.looked_at() < call.user_ids().len()
                        },
                        Step::Done(answer) => {
                            &&& answer == Ok::<bool, RoomError<F>>(true)
                            &&& self.looked_at() + 1 == self.user_ids().len()
                        },
                    }
                },
                Err(failure) => res == Step::<DevicesCall, Result<bool, RoomError<F>>>::Done(
                    Err(RoomError::CryptoStore(failure)),
                ),
            },
    {
        let users: usize = self.user_ids.len();
        match devices {
            Ok(devices) => {
                if any_unverified(&devices) {
                    Step::Done(Ok(false))
                } else if self.next + 1 == users {
                    Step::Done(Ok(true))
                } else {
                    Step::Perform(DevicesCall { user_ids: self.user_ids, next: self.next + 1 })
                }
            },
            Err(failure) => Step::Done(Err(RoomError::CryptoStore(failure))),
        }
    }
}

/// Whether one of `devices` is not verified.
fn any_unverified(devices: &Vec<Device>) -> (res: bool)
    ensures
        res == !all_verified(devices@),
        res <==> exists|d: int| 0 <= d < devices@.len() && !(#[trigger] devices@[d]).verified,
{
    let mut i: usize = 0;
    while i < devices.len()
        invariant
            i <= devices@.len(),
            all_verified(devices@.take(i as int)),
        decreases devices@.len() - i,
    {
        if !devices[i].verified {
            return true;
        }
        assert forall|j: int| 0 <= j < i + 1 implies (#[trigger] devices@.take(
            i + 1,
        )[j]).verified by {
            if j < i {
                assert(devices@.take(i as int)[j].verified);
            }
        }
        i += 1;
    }
    assert(devices@.take(i as int) == devices@);
    false
}

/// Whether `steps` are the steps of a look at `user_ids`, of which the `i`th user
/// has the devices `devices[i]`, as [`DevicesCall::begin`] and then
/// [`DevicesCall::devices_loaded`] report them, when every store answers.
pub open spec fn is_run<F>(
    user_ids: Seq<String>,
    devices: Seq<Seq<Device>>,
    steps: Seq<Step<DevicesCall, Result<bool, RoomError<F>>>>,
) -> bool {
    &&& devices.len() == user_ids.len()
    &&& steps.len() > 0
    &&& DevicesCall::reached(steps[0], user_ids, 0)
    &&& forall|k: int|
        #![trigger steps[k]]
        0 <= k < steps.len() - 1 ==> {
            &&& steps[k] is Perform
            &&& steps[k]->Perform_0.followed_by(
                devices[steps[k]->Perform_0.looked_at() as int],
                steps[k + 1],
            )
        }
}

/// The answer is `true` if all devices of all users of the room are verified, and
/// `false` otherwise.
pub proof fn law_answer_is_whether_all_devices_are_verified<F>(
    user_ids: Seq<String>,
    devices: Seq<Seq<Device>>,
    steps: Seq<Step<DevicesCall, Result<bool, RoomError<F>>>>,
)
    requires
        is_run(user_ids, devices, steps),
        steps.last() is Done,
    ensures
        steps.last()->Done_0 == Ok::<bool, RoomError<F>>(
            forall|u: int, d: int|
                0 <= u < devices.len() && 0 <= d < devices[u].len() ==> (
                #[trigger] devices[u][d]).verified,
        ),
{
    let last = steps.len() - 1;
    lemma_step(user_ids, devices, steps, last);
    if last > 0 {
        lemma_step(user_ids, devices, steps, last - 1);
        assert(steps[last - 1] is Perform);
        assert(last - 1 < devices.len());
    }
}

/// The look ends at the first user with a device that is not verified: the
/// devices of the users behind it are not asked for.
pub proof fn law_look_ends_at_first_unverified_device<F>(
    user_ids: Seq<String>,
    devices: Seq<Seq<Device>>,
    steps: Seq<Step<DevicesCall, Result<bool, RoomError<F>>>>,
    first: int,
)
    requires
        is_run(user_ids, devices, steps),
        0 <= first < devices.len(),
        exists|d: int| 0 <= d < devices[first].len() && !(#[trigger] devices[first][d]).verified,
        forall|u: int, d: int|
            0 <= u < first && 0 <= d < devices[u].len() ==> (#[trigger] devices[u][d]).verified,
        steps.last() is Done,
    ensures
        steps.len() == first + 2,
{
    let last = steps.len() - 1;
    if last <= first {
        lemma_step(user_ids, devices, steps, last);
        if last > 0 {
            lemma_step(user_ids, devices, steps, last - 1);
            assert(steps[last - 1] is Perform);
        }
    } else if last > first + 1 {
        lemma_step(user_ids, devices, steps, first + 1);
        assert(steps[first + 1] is Perform);
    }
}

/// A look that waits for a user after `k` steps has found all devices of the `k`
/// users before it verified.
proof fn lemma_step<F>(
    user_ids: Seq<String>,
    devices: Seq<Seq<Device>>,
    steps: Seq<Step<DevicesCall, Result<bool, RoomError<F>>>>,
    k: int,
)
    requires
        is_run(user_ids, devices, steps),
        0 <= k < steps.len(),
    ensures
        k <= devices.len(),
        steps[k] matches Step::Perform(call) ==> call.user_ids() == user_ids && call.looked_at()
            == k && k < devices.len() && (forall|i: int|
            0 <= i < k ==> all_verified(#[trigger] devices[i])),
        steps[k] is Done ==> (steps[k]->Done_0 == Ok::<bool, RoomError<F>>(true) && k
            == devices.len() && (forall|i: int|
            0 <= i < k ==> all_verified(#[trigger] devices[i]))) || (steps[k]->Done_0 == Ok::<
            bool,
            RoomError<F>,
        >(false) && k > 0 && !all_verified(devices[k - 1])),
    decreases k,
{
    if k > 0 {
        lemma_step(user_ids, devices, steps, k - 1);
        assert(steps[k - 1] is Perform);
    }
}

} // verus!
