use vstd::prelude::*;

verus! {

/// What a wall unit tells about itself.
#[derive(Clone, Copy, Debug)]
pub struct WallInfo {
    pub item: &'static str,
    pub id: usize,
}

impl WallInfo {
    pub fn new(id: usize) -> (w: WallInfo)
        ensures
            w == (WallInfo { item: "Wall", id }),
    {
        WallInfo { item: "Wall", id }
    }
}

/// A wall unit: it takes every event and does nothing.
#[derive(Clone, Copy, Debug)]
pub struct WallObj {
    pub key: usize,
}

impl WallObj {
    pub fn process(&mut self, _msg: crate::game::events::EventContainer) -> (r: crate::game::errors::LogicResult<()>)
        ensures
            r is Ok,
            *final(self) == *old(self),
    {
        Ok(())
    }

    pub fn tick(&mut self) -> (r: crate::game::errors::LogicResult<crate::game::events::AddresableEventsList>)
        ensures
            r is Ok,
            r->Ok_0@.len() == 0,
            *final(self) == *old(self),
    {
        Ok(Vec::new())
    }

    pub fn key(&self) -> (k: usize)
        ensures
            k == self.key,
    {
        self.key
    }

    pub fn get_info(&self) -> (i: WallInfo)
        ensures
            i == (WallInfo { item: "Wall", id: self.key }),
    {
        WallInfo::new(self.key)
    }
}

} // verus!
