//! The bridge's rate-limit guard: per-user daily and monthly sliding
//! windows over exchanged volume.
use vstd::prelude::*;

use crate::Timestamp;

verus! {

/// Seconds in the daily window.
pub const DAILY_WINDOW: i64 = 86_400;

/// Seconds in the monthly window.
pub const MONTHLY_WINDOW: i64 = 2_592_000;

/// One user's windows.
#[derive(Clone, Copy, Debug)]
pub struct UserLimits {
    /// Volume exchanged in the current daily window.
    pub daily_volume: i64,
    /// Volume exchanged in the current monthly window.
    pub monthly_volume: i64,
    /// When the user last exchanged.
    pub last_transaction: Timestamp,
    /// When the daily window started.
    pub last_daily_reset: Timestamp,
    /// When the monthly window started.
    pub last_monthly_reset: Timestamp,
}

/// The record of a user seen for the first time at `now`.
pub open spec fn spec_fresh_limits(now: i64) -> UserLimits {
    UserLimits {
        daily_volume: 0,
        monthly_volume: 0,
        last_transaction: 0,
        last_daily_reset: now,
        last_monthly_reset: now,
    }
}

/// The record after expired windows are reset at `now`.
pub open spec fn spec_reset_windows(rec: UserLimits, now: i64) -> UserLimits {
    let rec1 = if now - rec.last_daily_reset >= DAILY_WINDOW {
        UserLimits { daily_volume: 0, last_daily_reset: now, ..rec }
    } else {
        rec
    };
    if now - rec1.last_monthly_reset >= MONTHLY_WINDOW {
        UserLimits { monthly_volume: 0, last_monthly_reset: now, ..rec1 }
    } else {
        rec1
    }
}

/// The errors of the guard.
#[derive(Clone, Copy, Debug, PartialEq, Eq, Structural)]
pub enum SecurityError {
    /// The daily window's limit would be exceeded.
    DailyLimitExceeded,
    /// The monthly window's limit would be exceeded.
    MonthlyLimitExceeded,
    /// The amount is larger than the guard accepts.
    AmountTooLarge,
}

/// One table entry: the user and their windows.
pub type LimitEntry = (String, UserLimits);

/// The views of the table entries.
pub open spec fn spec_limit_views(s: Seq<LimitEntry>) -> Seq<(Seq<char>, UserLimits)> {
    Seq::new(s.len(), |i: int| (s[i].0@, s[i].1))
}

/// Whether some entry belongs to the user.
pub open spec fn spec_has_user(s: Seq<(Seq<char>, UserLimits)>, user: Seq<char>) -> bool {
    exists|j: int| 0 <= j < s.len() && (#[trigger] s[j]).0 == user
}

/// The table's users are pairwise distinct.
pub open spec fn spec_users_unique(s: Seq<(Seq<char>, UserLimits)>) -> bool {
    forall|i: int, j: int| 0 <= i < j < s.len() ==> (#[trigger] s[i]).0 != (#[trigger] s[j]).0
}

/// The full verdict of one exchange decided at a time: the user's record
/// (fresh if unseen) has its expired windows reset, the amount must fit
/// under both limits, and on success it is added to both windows; the
/// updated record replaces the user's entry, or is appended for a new user.
pub open spec fn spec_check_outcome(
    table: Seq<(Seq<char>, UserLimits)>,
    daily_limit: int,
    monthly_limit: int,
    user: Seq<char>,
    amount: i64,
    now: i64,
    r: Result<(), SecurityError>,
    table2: Seq<(Seq<char>, UserLimits)>,
) -> bool {
    let before = if spec_has_user(table, user) {
        table[spec_user_index(table, user)].1
    } else {
        spec_fresh_limits(now)
    };
    let rec1 = spec_reset_windows(before, now);
    let daily_over = rec1.daily_volume + amount > daily_limit;
    let monthly_over = rec1.monthly_volume + amount > monthly_limit;
    let rec2 = if !daily_over && !monthly_over {
        UserLimits {
            daily_volume: (rec1.daily_volume + amount) as i64,
            monthly_volume: (rec1.monthly_volume + amount) as i64,
            last_transaction: now,
            ..rec1
        }
    } else {
        rec1
    };
    &&& (r == Err::<(), SecurityError>(SecurityError::DailyLimitExceeded) <==> daily_over)
    &&& (r == Err::<(), SecurityError>(SecurityError::MonthlyLimitExceeded) <==> (!daily_over
        && monthly_over))
    &&& (r is Ok <==> !daily_over && !monthly_over)
    &&& (if spec_has_user(table, user) {
        table2 == table.update(spec_user_index(table, user), (user, rec2))
    } else {
        table2 == table.push((user, rec2))
    })
}

/// The guard: per-user windows and the global limits.
pub struct SecurityManager {
    limits: Vec<LimitEntry>,
    daily_limit: i64,
    monthly_limit: i64,
}

/// A user's current standing.
#[derive(Clone, Copy, Debug)]
pub struct UserStats {
    /// Volume exchanged in the current daily window.
    pub daily_volume: i64,
    /// Volume exchanged in the current monthly window.
    pub monthly_volume: i64,
    /// The daily limit.
    pub daily_limit: i64,
    /// The monthly limit.
    pub monthly_limit: i64,
}

impl SecurityManager {
    /// The table of users and their windows.
    pub closed spec fn spec_table(self) -> Seq<(Seq<char>, UserLimits)> {
        spec_limit_views(self.limits@)
    }

    /// The daily limit.
    pub closed spec fn spec_daily_limit(self) -> int {
        self.daily_limit as int
    }

    /// The monthly limit.
    pub closed spec fn spec_monthly_limit(self) -> int {
        self.monthly_limit as int
    }

    /// The guard is well formed: one entry per user.
    pub open spec fn wf(self) -> bool {
        spec_users_unique(self.spec_table())
    }

    /// Creates a guard with the given limits and no users.
    pub fn new(daily_limit: i64, monthly_limit: i64) -> (r: Self)
        ensures
            r.wf(),
            r.spec_table() == Seq::<(Seq<char>, UserLimits)>::empty(),
            r.spec_daily_limit() == daily_limit,
            r.spec_monthly_limit() == monthly_limit,
    {
        let r = SecurityManager { limits: Vec::new(), daily_limit, monthly_limit };
        proof {
            assert(r.spec_table() =~= Seq::<(Seq<char>, UserLimits)>::empty());
        }
        r
    }

    /// Decides one exchange at the given time: expired windows are reset
    /// first, then the amount must fit under both limits; on success it is
    /// added to both windows. Window resets stick even when the exchange is
    /// refused.
    pub fn check_exchange_at(&mut self, user_id: &str, amount: i64, now: i64) -> (r: Result<
        (),
        SecurityError,
    >)
        requires
            old(self).wf(),
            amount >= 0,
        ensures
            final(self).wf(),
            final(self).spec_daily_limit() == old(self).spec_daily_limit(),
            final(self).spec_monthly_limit() == old(self).spec_monthly_limit(),
            spec_check_outcome(
                old(self).spec_table(),
                old(self).spec_daily_limit(),
                old(self).spec_monthly_limit(),
                user_id@,
                amount,
                now,
                r,
                final(self).spec_table(),
            ),
    {
        let user_owned: String = user_id.to_owned();
        let mut idx: Option<usize> = None;
        let mut i: usize = 0;
        loop
            invariant_except_break
                idx is None,
            invariant
                *self == *old(self),
                user_owned@ == user_id@,
                i <= self.limits@.len(),
                forall|j: int|
                    0 <= j < i ==> (#[trigger] spec_limit_views(self.limits@)[j]).0 != user_id@,
            ensures
                *self == *old(self),
                match idx {
                    Option::Some(ii) => ii < self.limits@.len() && (spec_limit_views(
                        self.limits@,
                    )[ii as int]).0 == user_id@ && (forall|j: int|
                        0 <= j < ii ==> (#[trigger] spec_limit_views(self.limits@)[j]).0
                            != user_id@),
                    Option::None => forall|j: int|
                        0 <= j < self.limits@.len() ==> (#[trigger] spec_limit_views(
                            self.limits@,
                        )[j]).0 != user_id@,
                },
            decreases self.limits@.len() - i,
        {
            if i >= self.limits.len() {
                break ;
            }
            if self.limits[i].0 == user_owned {
                proof {
                    assert((spec_limit_views(self.limits@)[i as int]).0 == user_id@);
                }
                idx = Some(i);
                break ;
            }
            i += 1;
        }
        let ghost table = old(self).spec_table();
        let (at, before): (usize, UserLimits) = match idx {
            Option::Some(i) => {
                proof {
                    lemma_user_index(table, user_id@, i as int);
                }
                (i, self.limits[i].1)
            },
            Option::None => {
                let fresh = UserLimits {
                    daily_volume: 0,
                    monthly_volume: 0,
                    last_transaction: 0,
                    last_daily_reset: now,
                    last_monthly_reset: now,
                };
                let owned: String = user_id.to_owned();
                self.limits.push((owned, fresh));
                proof {
                    assert(self.spec_table() =~= table.push((user_id@, fresh)));
                    lemma_user_index(self.spec_table(), user_id@, table.len() as int);
                    assert forall|a: int, b: int|
                        0 <= a < b < self.spec_table().len() implies (
                    #[trigger] self.spec_table()[a]).0 != (#[trigger] self.spec_table()[b]).0 by {
                        if b < table.len() {
                            assert(table[a].0 != table[b].0);
                        } else {
                            assert(table[a].0 != user_id@);
                        }
                    }
                }
                (self.limits.len() - 1, fresh)
            },
        };
        let ghost table1 = self.spec_table();
        let mut rec = before;
        if now as i128 - rec.last_daily_reset as i128 >= DAILY_WINDOW as i128 {
            rec.daily_volume = 0;
            rec.last_daily_reset = now;
        }
        if now as i128 - rec.last_monthly_reset as i128 >= MONTHLY_WINDOW as i128 {
            rec.monthly_volume = 0;
            rec.last_monthly_reset = now;
        }
        proof {
            assert(rec == spec_reset_windows(before, now));
        }
        let daily_over = (rec.daily_volume as i128) + (amount as i128) > (self.daily_limit
            as i128);
        let monthly_over = (rec.monthly_volume as i128) + (amount as i128) > (self.monthly_limit
            as i128);
        let result: Result<(), SecurityError> = if daily_over {
            Err(SecurityError::DailyLimitExceeded)
        } else if monthly_over {
            Err(SecurityError::MonthlyLimitExceeded)
        } else {
            rec.daily_volume = rec.daily_volume + amount;
            rec.monthly_volume = rec.monthly_volume + amount;
            rec.last_transaction = now;
            Ok(())
        };
        let user_key = self.limits[at].0.clone();
        self.limits.set(at, (user_key, rec));
        proof {
            assert(self.spec_table() =~= table1.update(at as int, (user_id@, rec)));
            if idx is Some {
                assert(self.spec_table() =~= table.update(
                    spec_user_index(table, user_id@),
                    (user_id@, rec),
                ));
            } else {
                assert(self.spec_table() =~= table.push((user_id@, rec)));
            }
            assert forall|a: int, b: int|
                0 <= a < b < self.spec_table().len() implies (#[trigger] self.spec_table()[a]).0
                != (#[trigger] self.spec_table()[b]).0 by {
                assert(table1[a].0 != table1[b].0);
            }
        }
        result
    }

    /// Decides one exchange at the current time.
    pub fn check_exchange(&mut self, user_id: &str, amount: i64) -> (r: Result<(), SecurityError>)
        requires
            old(self).wf(),
            amount >= 0,
        ensures
            final(self).wf(),
            final(self).spec_daily_limit() == old(self).spec_daily_limit(),
            final(self).spec_monthly_limit() == old(self).spec_monthly_limit(),
            exists|t: i64|
                spec_check_outcome(
                    old(self).spec_table(),
                    old(self).spec_daily_limit(),
                    old(self).spec_monthly_limit(),
                    user_id@,
                    amount,
                    t,
                    r,
                    final(self).spec_table(),
                ),
    {
        let now = crate::clock::now_ts();
        let r = self.check_exchange_at(user_id, amount, now);
        proof {
            assert(spec_check_outcome(
                old(self).spec_table(),
                old(self).spec_daily_limit(),
                old(self).spec_monthly_limit(),
                user_id@,
                amount,
                now,
                r,
                self.spec_table(),
            ));
        }
        r
    }

    /// The current standing of a user, if they ever exchanged.
    pub fn get_user_stats(&self, user_id: &str) -> (r: Option<UserStats>)
        requires
            self.wf(),
        ensures
            r is Some <==> spec_has_user(self.spec_table(), user_id@),
            r matches Some(st) ==> ({
                let rec = self.spec_table()[spec_user_index(self.spec_table(), user_id@)].1;
                &&& st.daily_volume == rec.daily_volume
                &&& st.monthly_volume == rec.monthly_volume
                &&& st.daily_limit == self.spec_daily_limit()
                &&& st.monthly_limit == self.spec_monthly_limit()
            }),
    {
        let user_owned: String = user_id.to_owned();
        let mut i: usize = 0;
        while i < self.limits.len()
            invariant
                user_owned@ == user_id@,
                i <= self.limits@.len(),
                forall|j: int|
                    0 <= j < i ==> (#[trigger] spec_limit_views(self.limits@)[j]).0 != user_id@,
            decreases self.limits@.len() - i,
        {
            if self.limits[i].0 == user_owned {
                proof {
                    assert((spec_limit_views(self.limits@)[i as int]).0 == user_id@);
                    lemma_user_index(self.spec_table(), user_id@, i as int);
                }
                let rec = self.limits[i].1;
                return Some(
                    UserStats {
                        daily_volume: rec.daily_volume,
                        monthly_volume: rec.monthly_volume,
                        daily_limit: self.daily_limit,
                        monthly_limit: self.monthly_limit,
                    },
                );
            }
            i += 1;
        }
        None
    }
}

/// The index of the user's entry (meaningful when the user is present and
/// users are unique: the first match).
pub open spec fn spec_user_index(s: Seq<(Seq<char>, UserLimits)>, user: Seq<char>) -> int
    decreases s.len(),
{
    if s.len() == 0 {
        -1
    } else if s[0].0 == user {
        0
    } else {
        let r = spec_user_index(s.skip(1), user);
        if r < 0 {
            -1
        } else {
            r + 1
        }
    }
}

/// When the first entry of the user stands at `i`, that is the user's
/// index.
proof fn lemma_user_index(s: Seq<(Seq<char>, UserLimits)>, user: Seq<char>, i: int)
    requires
        0 <= i < s.len(),
        s[i].0 == user,
        forall|j: int| 0 <= j < i ==> (#[trigger] s[j]).0 != user,
    ensures
        spec_user_index(s, user) == i,
        spec_has_user(s, user),
    decreases s.len(),
{
    if i == 0 {
    } else {
        assert(forall|j: int| 0 <= j < i - 1 ==> (#[trigger] s.skip(1)[j]).0 != user);
        assert(s.skip(1)[i - 1].0 == user);
        lemma_user_index(s.skip(1), user, i - 1);
    }
}

} // verus!
