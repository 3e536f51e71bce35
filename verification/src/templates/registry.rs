use vstd::prelude::*;

verus! {

/// The flash messages of a page, as the layout shows them.
#[derive(Debug)]
pub struct FlashMessagePresentation {
    pub all: Vec<String>,
}

/// What every page is rendered with.
#[derive(Debug)]
pub struct GlobalContext {
    flash_messages: FlashMessagePresentation,
}

impl FlashMessagePresentation {
    /// The texts of the messages, in order.
    pub open spec fn view(&self) -> Seq<Seq<char>> {
        self.all@.map_values(|m: String| m@)
    }

    /// Takes the texts of the messages, in order.
    pub fn from_flash_messages(flash_messages: &[String]) -> (p: Self)
        ensures
            p@ == flash_messages@.map_values(|m: String| m@),
    {
        let mut all: Vec<String> = Vec::new();
        let mut i: usize = 0;
        while i < flash_messages.len()
            invariant
                0 <= i <= flash_messages@.len(),
                all@.len() == i,
                forall|j: int| 0 <= j < i ==> (#[trigger] all@[j])@ == flash_messages@[j]@,
            decreases flash_messages@.len() - i,
        {
            all.push(flash_messages[i].clone());
            i += 1;
        }
        let p = FlashMessagePresentation { all };
        proof {
            assert(p@ =~= flash_messages@.map_values(|m: String| m@));
        }
        p
    }
}

impl Default for FlashMessagePresentation {
    fn default() -> (p: Self)
        ensures
            p@ == Seq::<Seq<char>>::empty(),
    {
        let p = FlashMessagePresentation { all: Vec::new() };
        proof {
            assert(p@ =~= Seq::<Seq<char>>::empty());
        }
        p
    }
}

impl GlobalContext {
    /// The texts of the flash messages, in order.
    pub closed spec fn view(&self) -> Seq<Seq<char>> {
        self.flash_messages@
    }

    /// The context of a page that shows the given flash messages.
    pub fn from_slice(flash_messages: &[String]) -> (context: Self)
        ensures
            context@ == flash_messages@.map_values(|m: String| m@),
    {
        Self { flash_messages: FlashMessagePresentation::from_flash_messages(flash_messages) }
    }

    /// The flash messages of the page.
    pub fn flash_messages(&self) -> (p: &FlashMessagePresentation)
        ensures
            p@ == self@,
    {
        &self.flash_messages
    }
}

impl Default for GlobalContext {
    fn default() -> (context: Self)
        ensures
            context@ == Seq::<Seq<char>>::empty(),
    {
        Self { flash_messages: FlashMessagePresentation::default() }
    }
}

} // verus!
