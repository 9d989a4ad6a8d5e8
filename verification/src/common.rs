//! Values shared by the account service.
use vstd::prelude::*;
use crate::text::chars_of;

verus! {

/// `s` is an e-mail address as the account service accepts it: exactly one
/// `'@'`, and at least one `'.'` somewhere after it.
pub open spec fn is_email_address(s: Seq<char>) -> bool {
    exists|i: int, j: int|
        #![trigger s[i], s[j]]
        0 <= i < j < s.len() && s[i] == '@' && s[j] == '.' && (forall|k: int|
            0 <= k < s.len() && k != i ==> #[trigger] s[k] != '@')
}

/// An e-mail address that passed [`Email::parse`].
#[derive(Clone, Debug, PartialEq, Eq)]
pub struct Email(String);

impl View for Email {
    type V = Seq<char>;

    closed spec fn view(&self) -> Seq<char> {
        self.0@
    }
}

impl Email {
    /// Accepts `st` when it splits on `'@'` into exactly two parts and the
    /// part after the `'@'` splits on `'.'` into at least two parts.
    pub fn parse(st: &str) -> (res: Option<Self>)
        ensures
            res is Some <==> is_email_address(st@),
            res matches Some(e) ==> e@ == st@,
    {
        let v = chars_of(st);
        let n = v.len();
        let mut ats: usize = 0;
        let mut at_pos: usize = 0;
        let mut i: usize = 0;
        while i < n
            invariant
                n == v@.len(),
                v@ == st@,
                i <= n,
                ats <= i,
                ats == 0 ==> forall|k: int| 0 <= k < i ==> v@[k] != '@',
                ats >= 1 ==> at_pos < i && v@[at_pos as int] == '@',
                ats == 1 ==> forall|k: int| 0 <= k < i && k != at_pos ==> v@[k] != '@',
                ats >= 2 ==> exists|p: int| 0 <= p < i && p != at_pos && v@[p] == '@',
            decreases n - i,
        {
            if v[i] == '@' {
                ats = ats + 1;
                at_pos = i;
            }
            i = i + 1;
        }
        if ats != 1 {
            proof {
                if ats >= 2 {
                    let p = choose|p: int| 0 <= p < n && p != at_pos && v@[p] == '@';
                    assert forall|a: int, b: int|
                        0 <= a < b < v@.len() && v@[a] == '@' && v@[b] == '.' implies !(forall|k: int|
                        0 <= k < v@.len() && k != a ==> #[trigger] v@[k] != '@') by {
                        if a == p {
                            assert(v@[at_pos as int] == '@');
                        } else {
                            assert(v@[p] == '@');
                        }
                    }
                }
            }
            return None;
        }
        let mut j: usize = at_pos + 1;
        while j < n
            invariant
                n == v@.len(),
                v@ == st@,
                at_pos < j <= n,
                v@[at_pos as int] == '@',
                forall|k: int| 0 <= k < n && k != at_pos ==> v@[k] != '@',
                forall|k: int| at_pos < k < j ==> v@[k] != '.',
            decreases n - j,
        {
            if v[j] == '.' {
                assert(v@[at_pos as int] == '@' && v@[j as int] == '.');
                assert(is_email_address(st@));
                return Some(Email(st.to_owned()));
            }
            j = j + 1;
        }
        proof {
            assert forall|a: int, b: int|
                0 <= a < b < v@.len() && v@[a] == '@' && v@[b] == '.' implies !(forall|k: int|
                0 <= k < v@.len() && k != a ==> #[trigger] v@[k] != '@') by {
                if a != at_pos {
                    assert(v@[at_pos as int] == '@');
                }
            }
        }
        None
    }

    /// The address as text.
    pub fn as_ref(&self) -> (s: &str)
        ensures
            s@ == self@,
    {
        self.0.as_str()
    }
}

} // verus!
