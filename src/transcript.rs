use vstd::prelude::*;

verus! {

/// Who spoke a turn.
#[derive(Clone, Copy, Debug, PartialEq, Eq, Structural)]
pub enum Role {
    User,
    Assistant,
}

/// The wire name of a role.
pub open spec fn role_name(r: Role) -> Seq<char> {
    match r {
        Role::User => "user"@,
        Role::Assistant => "assistant"@,
    }
}

impl Role {
    pub fn as_str(&self) -> (r: &'static str)
        ensures
            r@ == role_name(*self),
    {
        match self {
            Role::User => "user",
            Role::Assistant => "assistant",
        }
    }
}

/// One turn of the conversation.
#[derive(Debug)]
pub struct Turn {
    pub role: Role,
    pub content: String,
}

pub type TurnView = (Role, Seq<char>);

impl View for Turn {
    type V = TurnView;

    open spec fn view(&self) -> TurnView {
        (self.role, self.content@)
    }
}

impl Turn {
    pub fn copy(&self) -> (r: Turn)
        ensures
            r@ == self@,
    {
        Turn { role: self.role, content: self.content.clone() }
    }
}

pub open spec fn turns_view(v: Seq<Turn>) -> Seq<TurnView> {
    v.map_values(|t: Turn| t@)
}

/// The conversation so far, oldest turn first. Turns are only ever appended.
pub struct Transcript {
    turns: Vec<Turn>,
}

impl View for Transcript {
    type V = Seq<TurnView>;

    closed spec fn view(&self) -> Seq<TurnView> {
        turns_view(self.turns@)
    }
}

impl Transcript {
    pub fn new() -> (r: Transcript)
        ensures
            r@ == Seq::<TurnView>::empty(),
    {
        let r = Transcript { turns: Vec::new() };
        proof {
            assert(r@ =~= Seq::<TurnView>::empty());
        }
        r
    }

    pub fn len(&self) -> (r: usize)
        ensures
            r == self@.len(),
    {
        self.turns.len()
    }

    pub fn turn(&self, i: usize) -> (r: &Turn)
        requires
            i < self@.len(),
        ensures
            r@ == self@[i as int],
    {
        &self.turns[i]
    }

    /// Appends a turn at the end.
    pub fn push(&mut self, role: Role, content: String)
        ensures
            final(self)@ == old(self)@.push((role, content@)),
    {
        let ghost before = self.turns@;
        self.turns.push(Turn { role, content });
        proof {
            assert(turns_view(self.turns@) =~= turns_view(before).push((role, content@)));
        }
    }

    /// A copy of every turn, in order.
    pub fn snapshot(&self) -> (r: Vec<Turn>)
        ensures
            turns_view(r@) == self@,
    {
        let mut r: Vec<Turn> = Vec::new();
        let mut i: usize = 0;
        while i < self.turns.len()
            invariant
                0 <= i <= self.turns@.len(),
                turns_view(r@) == turns_view(self.turns@).take(i as int),
            decreases self.turns@.len() - i,
        {
            let ghost before = r@;
            let t = self.turns[i].copy();
            r.push(t);
            proof {
                assert(turns_view(r@) =~= turns_view(before).push(t@));
                assert(turns_view(r@) =~= turns_view(self.turns@).take(i as int + 1));
            }
            i = i + 1;
        }
        proof {
            assert(turns_view(self.turns@).take(i as int) =~= turns_view(self.turns@));
        }
        r
    }
}

} // verus!
