//! Properties of sequences of registry operations, stated over the
//! abstract registry state.

use vstd::prelude::*;
use crate::error::Error;
use crate::registry::{bind_user_spec, open_mailbox_spec, post_spec, RegistryState};

verus! {

/// Two distinct fresh names both register, each bound to its own code; a
/// second registration of the first name, under any code, is refused with
/// `NameAlreadyExists` and leaves the registry as it was.
pub proof fn lemma_register_two_then_repeat(
    s: RegistryState,
    n1: Seq<char>,
    n2: Seq<char>,
    c1: Seq<u8>,
    c2: Seq<u8>,
    c: Seq<u8>,
)
    requires
        n1 != n2,
        c1 != c2,
        !s.users.contains_key(n1),
        !s.users.contains_key(n2),
    ensures
        bind_user_spec(s, n1, c1).1 == Ok::<(), Error>(()),
        bind_user_spec(bind_user_spec(s, n1, c1).0, n2, c2).1 == Ok::<(), Error>(()),
        bind_user_spec(bind_user_spec(s, n1, c1).0, n2, c2).0.users
            == s.users.insert(n1, c1).insert(n2, c2),
        ({
            let s2 = bind_user_spec(bind_user_spec(s, n1, c1).0, n2, c2).0;
            bind_user_spec(s2, n1, c) == (s2, Err::<(), Error>(Error::NameAlreadyExists))
        }),
{
}

/// Once a mailbox is open under a code, opening it again is refused with
/// `PaymentCodeAlreadyExists` and leaves the registry as it was.
pub proof fn lemma_open_mailbox_twice(s: RegistryState, code: Seq<u8>)
    ensures
        open_mailbox_spec(s, code).0.mailboxes.contains_key(code),
        ({
            let s1 = open_mailbox_spec(s, code).0;
            open_mailbox_spec(s1, code) == (s1, Err::<(), Error>(Error::PaymentCodeAlreadyExists))
        }),
{
}

/// Applies `post_spec` to each (code, signal) pair in turn, collecting the
/// results in call order.
pub open spec fn post_all(s: RegistryState, posts: Seq<(Seq<u8>, Seq<u8>)>) -> (RegistryState, Seq<Result<u32, Error>>)
    decreases posts.len(),
{
    if posts.len() == 0 {
        (s, Seq::empty())
    } else {
        let prev = post_all(s, posts.drop_last());
        let next = post_spec(prev.0, posts.last().0, posts.last().1);
        (next.0, prev.1.push(next.1))
    }
}

/// The indices `base + i` of the posts `i` addressed to `code`, in call order.
pub open spec fn indices_to(posts: Seq<(Seq<u8>, Seq<u8>)>, code: Seq<u8>, base: int) -> Seq<u32>
    decreases posts.len(),
{
    if posts.len() == 0 {
        Seq::empty()
    } else {
        let prev = indices_to(posts.drop_last(), code, base);
        if posts.last().0 == code {
            prev.push((base + posts.len() - 1) as u32)
        } else {
            prev
        }
    }
}

/// Posts to open mailboxes, one after another, succeed with consecutive
/// indices starting at the log's length, in call order; the log gains their
/// signals in that order, and each mailbox gains exactly the indices of the
/// posts addressed to it, in call order.
pub proof fn lemma_posts_in_order(s: RegistryState, posts: Seq<(Seq<u8>, Seq<u8>)>)
    requires
        forall|i: int| 0 <= i < posts.len() ==> s.mailboxes.contains_key(#[trigger] posts[i].0),
        s.signals.len() + posts.len() <= u32::MAX,
    ensures
        post_all(s, posts).1.len() == posts.len(),
        forall|i: int| 0 <= i < posts.len()
            ==> #[trigger] post_all(s, posts).1[i] == Ok::<u32, Error>((s.signals.len() + i) as u32),
        post_all(s, posts).0.signals == s.signals + posts.map_values(|p: (Seq<u8>, Seq<u8>)| p.1),
        post_all(s, posts).0.users == s.users,
        post_all(s, posts).0.mailboxes.dom() == s.mailboxes.dom(),
        forall|c: Seq<u8>| #[trigger] s.mailboxes.contains_key(c)
            ==> post_all(s, posts).0.mailboxes[c] == s.mailboxes[c] + indices_to(posts, c, s.signals.len() as int),
    decreases posts.len(),
{
    if posts.len() > 0 {
        let init = posts.drop_last();
        assert forall|i: int| 0 <= i < init.len() implies s.mailboxes.contains_key(#[trigger] init[i].0) by {
            assert(init[i] == posts[i]);
        }
        lemma_posts_in_order(s, init);
        let prev = post_all(s, init);
        let last = posts.last();
        assert(posts[posts.len() - 1] == last);
        assert(prev.0.mailboxes.contains_key(last.0));
        let next = post_spec(prev.0, last.0, last.1);
        assert(prev.0.signals.len() == s.signals.len() + init.len()) by {
            assert(init.map_values(|p: (Seq<u8>, Seq<u8>)| p.1).len() == init.len());
        }
        assert(posts.map_values(|p: (Seq<u8>, Seq<u8>)| p.1) =~= init.map_values(
            |p: (Seq<u8>, Seq<u8>)| p.1,
        ).push(last.1));
        assert(next.0.signals =~= s.signals + posts.map_values(|p: (Seq<u8>, Seq<u8>)| p.1));
        assert(next.0.mailboxes.dom() =~= s.mailboxes.dom());
        assert forall|i: int| 0 <= i < posts.len()
            implies #[trigger] post_all(s, posts).1[i] == Ok::<u32, Error>((s.signals.len() + i) as u32) by {
            if i < init.len() {
                assert(post_all(s, posts).1[i] == prev.1[i]);
            }
        }
        assert forall|c: Seq<u8>| #[trigger] s.mailboxes.contains_key(c)
            implies post_all(s, posts).0.mailboxes[c] == s.mailboxes[c] + indices_to(posts, c, s.signals.len() as int) by {
            let base = s.signals.len() as int;
            if c == last.0 {
                assert(s.mailboxes[c] + indices_to(init, c, base).push((base + posts.len() - 1) as u32)
                    =~= (s.mailboxes[c] + indices_to(init, c, base)).push((base + posts.len() - 1) as u32));
            }
        }
    }
}

/// The indices that `indices_to` lists rise strictly and stay below
/// `base + posts.len()`.
pub proof fn lemma_indices_to_increasing(posts: Seq<(Seq<u8>, Seq<u8>)>, code: Seq<u8>, base: int)
    requires
        0 <= base,
        base + posts.len() <= u32::MAX + 1,
    ensures
        forall|i: int, j: int| 0 <= i < j < indices_to(posts, code, base).len()
            ==> indices_to(posts, code, base)[i] < indices_to(posts, code, base)[j],
        forall|i: int| 0 <= i < indices_to(posts, code, base).len()
            ==> base <= #[trigger] indices_to(posts, code, base)[i] < base + posts.len(),
    decreases posts.len(),
{
    if posts.len() > 0 {
        let init = posts.drop_last();
        lemma_indices_to_increasing(init, code, base);
        let prev = indices_to(init, code, base);
        let all = indices_to(posts, code, base);
        if posts.last().0 == code {
            let v = (base + posts.len() - 1) as u32;
            assert(v == base + posts.len() - 1);
            assert(all == prev.push(v));
            assert forall|i: int| 0 <= i < all.len() implies base <= #[trigger] all[i] < base + posts.len() by {
                if i < prev.len() {
                    assert(all[i] == prev[i]);
                }
            }
            assert forall|i: int, j: int| 0 <= i < j < all.len() implies all[i] < all[j] by {
                assert(all[i] == prev[i]);
                if j < prev.len() {
                    assert(all[j] == prev[j]);
                }
            }
        }
    }
}

} // verus!
