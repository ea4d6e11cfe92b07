//! Compact component identifiers.
//!
//! A [`CustomId`] names an interactive component: a base, a name, and any
//! number of data arguments.  Its text form is `base_name` alone, or
//! `base_name;d1;d2;…` with data, and is capped at sixty-four characters —
//! the identifier is carried in a fixed-size field by its consumers.

use crate::text::{find_char, index_of_char};
use vstd::prelude::*;

verus! {

/// Why a custom identifier operation failed.
#[derive(Clone, Copy, Debug, PartialEq, Eq, Structural)]
pub enum IdError {
    /// The header holds no underscore, so base and name cannot be split.
    InvalidHeader,
    /// Adding the argument would push the text form past its cap.
    TooLong,
}

/// The data arguments joined onto a rendering: a semicolon before each.
pub open spec fn tail_join(parts: Seq<Seq<char>>) -> Seq<char>
    decreases parts.len(),
{
    if parts.len() == 0 {
        Seq::empty()
    } else {
        seq![';'] + parts[0] + tail_join(parts.drop_first())
    }
}

/// Joining one more part appends a semicolon and that part.
proof fn lemma_tail_join_snoc(parts: Seq<Seq<char>>, i: int)
    requires
        0 <= i < parts.len(),
    ensures
        tail_join(parts.take(i + 1)) == tail_join(parts.take(i)) + seq![';'] + parts[i],
    decreases i,
{
    if i == 0 {
        assert(parts.take(1).drop_first() =~= parts.take(0));
        assert(parts.take(0) =~= Seq::<Seq<char>>::empty());
        assert(parts.take(1)[0] == parts[0]);
        assert(tail_join(parts.take(1)) =~= tail_join(parts.take(0)) + seq![';'] + parts[0]);
    } else {
        let q = parts.drop_first();
        assert(parts.take(i + 1).drop_first() =~= q.take(i));
        assert(parts.take(i).drop_first() =~= q.take(i - 1));
        lemma_tail_join_snoc(q, i - 1);
        assert(parts.take(i + 1)[0] == parts[0]);
        assert(parts.take(i)[0] == parts[0]);
        assert(q[i - 1] == parts[i]);
        assert(tail_join(parts.take(i + 1)) =~= tail_join(parts.take(i)) + seq![';'] + parts[i]);
    }
}

/// A component identifier: a base, a name, and data arguments.
pub struct CustomId {
    pub base: String,
    pub name: String,
    pub data: Vec<String>,
}

impl CustomId {
    /// The data arguments, as character sequences.
    pub open spec fn spec_data(&self) -> Seq<Seq<char>> {
        self.data@.map(|i: int, s: String| s@)
    }

    /// The text form: `base_name`, then a semicolon before each data
    /// argument.
    pub open spec fn spec_render(&self) -> Seq<char> {
        self.base@ + seq!['_'] + self.name@ + tail_join(self.spec_data())
    }

    /// An identifier with the given base and name and no data.
    pub fn new(base: String, name: String) -> (r: Self)
        ensures
            r.base@ == base@,
            r.name@ == name@,
            r.spec_data() == Seq::<Seq<char>>::empty(),
    {
        let data = Vec::new();
        let r = CustomId { base, name, data };
        proof {
            assert(r.spec_data() =~= Seq::<Seq<char>>::empty());
        }
        r
    }

    /// Splits a received header back into base and name: the text before
    /// the first underscore, and from there to the next underscore or the
    /// end.  A header without an underscore is invalid.
    pub fn try_resolve(head: &str) -> (r: Result<Self, IdError>)
        ensures
            match r {
                Ok(c) => {
                    let k = index_of_char(head@, '_');
                    let rest = head@.skip(k + 1);
                    &&& k < head@.len()
                    &&& c.base@ == head@.take(k)
                    &&& c.name@ == rest.take(index_of_char(rest, '_'))
                    &&& c.spec_data() == Seq::<Seq<char>>::empty()
                },
                Err(e) => e == IdError::InvalidHeader && index_of_char(head@, '_') == head@.len(),
            },
    {
        let len = head.unicode_len();
        let k = find_char(head, '_');
        if k == len {
            return Err(IdError::InvalidHeader);
        }
        proof {
            crate::text::lemma_index_of_char_bounds(head@, '_');
        }
        let base = head.substring_char(0, k).to_owned();
        let rest = head.substring_char(k + 1, len);
        proof {
            assert(rest@ =~= head@.skip(k + 1));
        }
        let m = find_char(rest, '_');
        proof {
            crate::text::lemma_index_of_char_bounds(rest@, '_');
        }
        let name = rest.substring_char(0, m).to_owned();
        Ok(Self::new(base, name))
    }

    /// Appends a data argument, unless the rendering would then pass
    /// sixty-four characters: one more than the current form, the separator,
    /// and the argument.
    pub fn push_data(&mut self, arg: &str) -> (r: Result<(), IdError>)
        ensures
            match r {
                Ok(()) => old(self).spec_render().len() + arg@.len() + 1 <= 64 && final(self).base@
                    == old(self).base@ && final(self).name@ == old(self).name@ && final(self).spec_data() == old(self).spec_data().push(arg@),
                Err(e) => e == IdError::TooLong && old(self).spec_render().len() + arg@.len() + 1
                    > 64 && *final(self) == *old(self),
            },
    {
        let rendered = self.render();
        let len1 = rendered.as_str().unicode_len();
        let len2 = arg.unicode_len();
        if len1 >= 64 || len2 >= 64 {
            return Err(IdError::TooLong);
        }
        let length = len1 + len2 + 1;
        if length > 64 {
            return Err(IdError::TooLong);
        }
        self.data.push(arg.to_owned());
        proof {
            assert(self.spec_data() =~= old(self).spec_data().push(arg@));
        }
        Ok(())
    }

    /// The identifier's text form.
    pub fn render(&self) -> (r: String)
        ensures
            r@ == self.spec_render(),
    {
        proof {
            reveal_strlit("_");
            reveal_strlit(";");
        }
        let mut out = self.base.clone();
        out.append("_");
        out.append(self.name.as_str());
        let ghost head = self.base@ + seq!['_'] + self.name@;
        proof {
            assert(out@ =~= head);
            assert(self.spec_data().take(0) =~= Seq::<Seq<char>>::empty());
        }
        let n = self.data.len();
        let mut i: usize = 0;
        while i < n
            invariant
                0 <= i <= n,
                n == self.data@.len(),
                self.spec_data().len() == n,
                out@ == head + tail_join(self.spec_data().take(i as int)),
            decreases n - i,
        {
            out.append(";");
            out.append(self.data[i].as_str());
            proof {
                reveal_strlit(";");
                lemma_tail_join_snoc(self.spec_data(), i as int);
                assert(self.spec_data()[i as int] == self.data@[i as int]@);
                assert(out@ =~= head + tail_join(self.spec_data().take(i + 1)));
            }
            i = i + 1;
        }
        proof {
            assert(self.spec_data().take(n as int) =~= self.spec_data());
        }
        out
    }
}

} // verus!
