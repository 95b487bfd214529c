//! What the verbs promise, whatever they are told.
//!
//! Two kinds of promise stand here. One is about every deed that a verb ever
//! asks for: what it names, and where each of its parts comes from. The other is
//! about what has been asked for by the time a verb ends: that no session was
//! passed over, and that nothing a session was owed was left out.
use vstd::prelude::*;
use vstd::string::*;

use crate::address::{address_text, Address};
use crate::scan::{lines, starts_with, trim};
use crate::session::Session;
use crate::time::SystemTime;
use crate::verbs::common::{implied, of_project, said_after, Here};
use crate::verbs::deeds::{
    ask, found, listed, machine_of, unit_of, Deed, DeedView, Event, Reply, Said, TalkView,
};

pub mod running;
pub mod sessions;
pub mod state;
pub mod sync;
pub mod up;

verus! {

/// A session was handed over by the store: on its own, or in a list.
pub open spec fn handed(e: Event, x: Session) -> bool {
    ||| e == Event::Found(Some(x))
    ||| e matches Event::Sessions(v) && v@.contains(x)
}

pub open spec fn heard(r: Seq<Reply>, x: Session) -> bool {
    exists|k: int| 0 <= k < r.len() && handed(#[trigger] r[k].event, x)
}

/// A session of a project, as the store knows it.
pub open spec fn theirs(r: Seq<Reply>, project: Seq<char>, x: Session) -> bool {
    heard(r, x) && x.project@ == project
}

/// The session of that name, reached at the address that is recorded for it.
pub open spec fn reaches(x: Session, session: Seq<char>, address: Address) -> bool {
    session == x.name@ && x.address == Some(address)
}

/// The runner replied with a line that says this of a key.
pub open spec fn told_of(r: Seq<Reply>, key: Seq<char>, value: Seq<char>) -> bool {
    exists|k: int|
        0 <= k < r.len() && ((#[trigger] r[k].event) matches Event::Text(t) && said_after(
            lines(t@),
            key,
        ) == Some(value))
}

/// A path with exactly one slash put at its end, where it has none.
pub open spec fn ended(path: Seq<char>, with: Seq<char>) -> bool {
    if path.len() > 0 && path.last() == '/' {
        with == path
    } else {
        with == path.push('/')
    }
}

/// The host part of an rsync target: an IPv6 address stands in brackets.
pub open spec fn rsync_host(a: Address) -> Seq<char> {
    match a {
        Address::V4(_) => address_text(a),
        Address::V6(_) => "["@ + address_text(a) + "]"@,
    }
}

/// A deed that is waited for after so many replies: none has come yet, or the
/// next one is no answer to it.
pub open spec fn awaited(r: Seq<Reply>, k: int, d: DeedView) -> bool {
    &&& 0 <= k <= r.len()
    &&& k < r.len() ==> (match d {
        Deed::Create { .. } => machine_of(r[k].event) is None,
        _ => unit_of(r[k].event) is None,
    })
}

/// The time when a deed is asked for: that of the reply before it.
pub open spec fn moment(r: Seq<Reply>, k: int, start: SystemTime) -> int {
    if k == 0 {
        start@
    } else {
        r[k - 1].at@
    }
}

/// What the last line with a prefix says, with nothing blank around it; and
/// nothing where no line has the prefix.
pub proof fn law_the_last_word_counts(l: Seq<Seq<char>>, word: Seq<char>)
    ensures
        match said_after(l, word) {
            None => forall|k: int| 0 <= k < l.len() ==> !starts_with(#[trigger] l[k], word),
            Some(v) => exists|k: int|
                {
                    &&& 0 <= k < l.len()
                    &&& starts_with(#[trigger] l[k], word)
                    &&& v == trim(l[k].subrange(word.len() as int, l[k].len() as int))
                    &&& forall|j: int| k < j < l.len() ==> !starts_with(#[trigger] l[j], word)
                },
        },
    decreases l.len(),
{
    if l.len() > 0 {
        let last = l.len() - 1;
        if starts_with(l[last], word) {
            assert(l[last].skip(word.len() as int) =~= l[last].subrange(
                word.len() as int,
                l[last].len() as int,
            ));
        } else {
            let rest = l.drop_last();
            law_the_last_word_counts(rest, word);
            assert(forall|k: int| 0 <= k < rest.len() ==> rest[k] == l[k]);
            match said_after(rest, word) {
                None => {},
                Some(v) => {
                    let k = choose|k: int|
                        {
                            &&& 0 <= k < rest.len()
                            &&& starts_with(#[trigger] rest[k], word)
                            &&& v == trim(rest[k].subrange(word.len() as int, rest[k].len() as int))
                            &&& forall|j: int|
                                k < j < rest.len() ==> !starts_with(#[trigger] rest[j], word)
                        };
                    assert(starts_with(l[k], word));
                    assert forall|j: int| k < j < l.len() implies !starts_with(
                        #[trigger] l[j],
                        word,
                    ) by {
                        if j < rest.len() {
                            assert(rest[j] == l[j]);
                        }
                    }
                },
            }
        }
    }
}

/// Of the sessions that the store lists, the ones that a project owns are all
/// there, and no others, in the order in which they are listed.
pub proof fn law_no_session_of_a_project_is_missed(v: Seq<Session>, project: Seq<char>, x: Session)
    ensures
        of_project(v, project).contains(x) <==> v.contains(x) && x.project@ == project,
        of_project(v, project).len() <= v.len(),
    decreases v.len(),
{
    if v.len() > 0 {
        let rest = v.drop_last();
        let o = of_project(v, project);
        let p = of_project(rest, project);
        law_no_session_of_a_project_is_missed(rest, project, x);
        if o.contains(x) {
            let k = choose|k: int| 0 <= k < o.len() && o[k] == x;
            if k < p.len() {
                assert(p[k] == x);
                let j = choose|j: int| 0 <= j < rest.len() && rest[j] == x;
                assert(v[j] == x);
            } else {
                assert(v[v.len() - 1] == x);
            }
        }
        if v.contains(x) && x.project@ == project {
            let j = choose|j: int| 0 <= j < v.len() && v[j] == x;
            if j < rest.len() {
                assert(rest[j] == x);
                let k = choose|k: int| 0 <= k < p.len() && p[k] == x;
                assert(o[k] == x);
            } else {
                assert(o[o.len() - 1] == x);
            }
        }
    }
}

/// A verb acts on the session that was named, and on no other; with none named,
/// on every session that the store lists for the project. It asks the store for
/// just that.
pub proof fn law_a_verb_acts_on_what_was_meant(
    explicit: Option<Seq<char>>,
    project: Seq<char>,
    here: Here,
    r: Seq<Reply>,
    i: int,
    said: Said,
)
    requires
        0 <= i <= r.len(),
    ensures
        match implied(explicit, Some(project), here, r, i, said) {
            TalkView::Ask(q) => match explicit {
                Some(name) => q.deed matches Deed::Get(n) && n == name,
                None => q.deed is List,
            },
            TalkView::Done(o, n, _) => {
                &&& n == i + 1 <= r.len()
                &&& o matches Ok(v) ==> {
                    &&& forall|k: int| 0 <= k < v.len() ==> theirs(r, project, #[trigger] v[k])
                    &&& match explicit {
                        Some(_) => v.len() == 1 && r[i].event == Event::Found(Some(v[0])),
                        None => r[i].event matches Event::Sessions(all) && (forall|x: Session|
                            all@.contains(x) && x.project@ == project ==> #[trigger] v.contains(x)),
                    }
                }
            },
        },
{
    match explicit {
        Some(name) => match found(r, i, ask(said, 0, Deed::Get(name))) {
            TalkView::Done(Ok(Some(x)), n, _) => {
                assert(handed(r[i].event, x));
            },
            _ => {},
        },
        None => match listed(r, i, ask(said, 0, Deed::List)) {
            TalkView::Done(Ok(all), n, _) => {
                let v = of_project(all@, project);
                assert forall|k: int| 0 <= k < v.len() implies theirs(
                    r,
                    project,
                    #[trigger] v[k],
                ) by {
                    law_no_session_of_a_project_is_missed(all@, project, v[k]);
                    assert(v.contains(v[k]));
                    assert(handed(r[i].event, v[k]));
                }
                assert forall|x: Session|
                    all@.contains(x) && x.project@ == project implies #[trigger] v.contains(x) by {
                    law_no_session_of_a_project_is_missed(all@, project, x);
                }
            },
            _ => {},
        },
    }
}

/// What a verb settles about its sessions does not change as more is heard.
pub proof fn lemma_implied_holds(
    explicit: Option<Seq<char>>,
    project: Option<Seq<char>>,
    here: Here,
    r: Seq<Reply>,
    i: int,
    said: Said,
    k: int,
)
    requires
        0 <= i <= k <= r.len(),
    ensures
        implied(explicit, project, here, r, i, said) matches TalkView::Done(_, n, _) ==> i <= n
            <= r.len() && (n <= k ==> implied(explicit, project, here, r.take(k), i, said)
            == implied(explicit, project, here, r, i, said)),
{
    if i < k {
        assert(r.take(k)[i] == r[i]);
    }
}

}
