//! The tab and screen state around the pipeline: which tabs are open,
//! which is active, how far the content pane is scrolled, and which screen
//! the interface shows.

use vstd::prelude::*;
use vstd::string::StrSliceExecFns;

verus! {

/// Which screen the interface shows.
#[derive(Debug)]
pub enum Screen {
    Exit,
    Main,
    Edit,
}

impl Default for Screen {
    /// The interface starts on the main screen.
    fn default() -> (r: Self)
        ensures
            r == Screen::Main,
    {
        Screen::Main
    }
}

/// One browser tab: its address, the address being typed, and the
/// flattened page content.
#[derive(Debug)]
pub struct Tab {
    pub url: String,
    pub url_field: String,
    pub content: String,
}

impl Default for Tab {
    /// A fresh tab holds nothing at all.
    fn default() -> (r: Self)
        ensures
            r.url@ == Seq::<char>::empty(),
            r.url_field@ == Seq::<char>::empty(),
            r.content@ == Seq::<char>::empty(),
    {
        Tab { url: String::new(), url_field: String::new(), content: String::new() }
    }
}

impl Tab {
    /// Takes the address being typed over as the tab's address.
    pub fn set_url(&mut self)
        ensures
            final(self).url == old(self).url_field,
            final(self).url_field == old(self).url_field,
            final(self).content == old(self).content,
    {
        self.url = self.url_field.clone();
    }
}

/// The number of newline characters in `s`.
pub open spec fn newline_count(s: Seq<char>) -> nat
    decreases s.len(),
{
    if s.len() == 0 {
        0
    } else {
        newline_count(s.drop_last()) + (if s.last() == '\n' {
            1nat
        } else {
            0nat
        })
    }
}

/// How many lines a string shows: its newline count, plus one for a final
/// line not ended by a newline.
pub open spec fn line_count(s: Seq<char>) -> nat {
    newline_count(s) + (if s.len() > 0 && s.last() != '\n' {
        1nat
    } else {
        0nat
    })
}

proof fn lemma_newline_count_bound(s: Seq<char>)
    ensures
        newline_count(s) <= s.len(),
    decreases s.len(),
{
    if s.len() > 0 {
        lemma_newline_count_bound(s.drop_last());
    }
}

/// Counts the lines of `s`, the way the scroll bound sees them.
pub fn count_lines(s: &str) -> (n: usize)
    ensures
        n == line_count(s@),
{
    let len: usize = s.unicode_len();
    let mut nl: usize = 0;
    let mut i: usize = 0;
    while i < len
        invariant
            i <= len,
            len == s@.len(),
            nl == newline_count(s@.take(i as int)),
            nl <= i,
        decreases len - i,
    {
        proof {
            assert(s@.take(i as int + 1).drop_last() =~= s@.take(i as int));
            assert(s@.take(i as int + 1).last() == s@[i as int]);
        }
        if s.get_char(i) == '\n' {
            nl = nl + 1;
        }
        i = i + 1;
    }
    proof {
        assert(s@.take(len as int) =~= s@);
    }
    if len > 0 && s.get_char(len - 1) != '\n' {
        proof {
            lemma_newline_count_bound(s@.drop_last());
            assert(newline_count(s@) == newline_count(s@.drop_last()));
        }
        nl + 1
    } else {
        nl
    }
}

/// The whole interface state.
#[derive(Debug)]
pub struct Browser {
    pub tabs: Vec<Tab>,
    pub active_tab: usize,
    pub scroll: u16,
    pub should_exit: bool,
    pub current_screen: Screen,
    pub currently_typing: bool,
}

/// Relies on `String::push`: appends exactly the one character to the end
/// of the string.
#[verifier::external_body]
fn push_char(s: &mut String, c: char)
    ensures
        final(s)@ == old(s)@.push(c),
{
    s.push(c);
}

/// Relies on `String::pop`: removes and returns the last character, and
/// returns nothing for an empty string.
#[verifier::external_body]
fn pop_char(s: &mut String) -> (r: Option<char>)
    ensures
        old(s)@.len() == 0 ==> final(s)@ == old(s)@ && r is None,
        old(s)@.len() > 0 ==> final(s)@ == old(s)@.drop_last() && r == Some(old(s)@.last()),
{
    s.pop()
}

impl Browser {
    /// At least one tab is open, and the active index points at one.
    pub open spec fn wf(self) -> bool {
        self.tabs@.len() >= 1 && self.active_tab < self.tabs@.len()
    }

    /// The active tab's value.
    pub open spec fn active(self) -> Tab {
        self.tabs@[self.active_tab as int]
    }

    /// A browser with one empty tab, on the main screen.
    pub fn new() -> (r: Browser)
        ensures
            r.wf(),
            r.tabs@.len() == 1,
            r.tabs@[0].url@ == Seq::<char>::empty(),
            r.tabs@[0].url_field@ == Seq::<char>::empty(),
            r.tabs@[0].content@ == Seq::<char>::empty(),
            r.active_tab == 0,
            r.scroll == 0,
            !r.should_exit,
            r.current_screen == Screen::Main,
            !r.currently_typing,
    {
        let tab = Tab::default();
        Browser {
            tabs: vec![tab],
            active_tab: 0,
            scroll: 0,
            should_exit: false,
            current_screen: Screen::Main,
            currently_typing: false,
        }
    }

    /// A timer tick; the state is unaffected.
    pub fn tick(&self) {
    }

    /// Flips whether the address field is being typed in.
    pub fn toggle_typing(&mut self)
        ensures
            *final(self) == (Browser { currently_typing: !old(self).currently_typing, ..*old(self) }),
    {
        self.currently_typing = !self.currently_typing;
    }

    /// Asks the interface loop to end.
    pub fn quit(&mut self)
        ensures
            *final(self) == (Browser { should_exit: true, ..*old(self) }),
    {
        self.should_exit = true;
    }

    /// The active tab.
    pub fn active_tab(&self) -> (r: &Tab)
        requires
            self.wf(),
        ensures
            *r == self.active(),
    {
        &self.tabs[self.active_tab]
    }

    /// Opens a fresh empty tab after the others and makes it active.
    pub fn new_tab(&mut self)
        requires
            old(self).wf(),
        ensures
            final(self).wf(),
            final(self).tabs@.len() == old(self).tabs@.len() + 1,
            final(self).tabs@ == old(self).tabs@.push(final(self).tabs@.last()),
            final(self).tabs@.last().url@ == Seq::<char>::empty(),
            final(self).tabs@.last().url_field@ == Seq::<char>::empty(),
            final(self).tabs@.last().content@ == Seq::<char>::empty(),
            final(self).active_tab == old(self).tabs@.len(),
            final(self).scroll == old(self).scroll,
            final(self).should_exit == old(self).should_exit,
            final(self).current_screen == old(self).current_screen,
            final(self).currently_typing == old(self).currently_typing,
    {
        let new_tab = Tab::default();
        let index: usize = self.tabs.len();
        self.tabs.push(new_tab);
        self.active_tab = index;
    }

    /// Closes the active tab.  The last remaining tab is not closed:
    /// instead the exit screen comes up.  Closing the rightmost tab
    /// activates its left neighbour; closing any other tab keeps the
    /// index, which then points at the right neighbour.
    pub fn close_active_tab(&mut self)
        requires
            old(self).wf(),
        ensures
            final(self).wf(),
            old(self).tabs@.len() == 1 ==> *final(self) == (Browser {
                current_screen: Screen::Exit,
                ..*old(self)
            }),
            old(self).tabs@.len() > 1 ==> {
                &&& final(self).tabs@ == old(self).tabs@.remove(old(self).active_tab as int)
                &&& final(self).active_tab == (if old(self).active_tab == old(self).tabs@.len()
                    - 1 {
                    old(self).active_tab - 1
                } else {
                    old(self).active_tab as int
                })
                &&& final(self).scroll == old(self).scroll
                &&& final(self).should_exit == old(self).should_exit
                &&& final(self).current_screen == old(self).current_screen
                &&& final(self).currently_typing == old(self).currently_typing
            },
    {
        let length: usize = self.tabs.len();
        if length == 1 {
            self.current_screen = Screen::Exit;
        } else if self.active_tab == length - 1 {
            self.prev_tab();
            self.tabs.remove(length - 1);
        } else {
            self.tabs.remove(self.active_tab);
        }
    }

    /// Activates the tab to the right, staying put on the last one.
    pub fn next_tab(&mut self)
        requires
            old(self).wf(),
        ensures
            *final(self) == (Browser {
                active_tab: (if old(self).active_tab + 1 <= old(self).tabs@.len() - 1 {
                    old(self).active_tab + 1
                } else {
                    old(self).tabs@.len() - 1
                }) as usize,
                ..*old(self)
            }),
            final(self).wf(),
    {
        let last: usize = self.tabs.len() - 1;
        if self.active_tab < last {
            self.active_tab = self.active_tab + 1;
        } else {
            self.active_tab = last;
        }
    }

    /// Activates the tab to the left, staying put on the first one.
    pub fn prev_tab(&mut self)
        ensures
            *final(self) == (Browser {
                active_tab: (if old(self).active_tab >= 1 {
                    old(self).active_tab - 1
                } else {
                    old(self).active_tab as int
                }) as usize,
                ..*old(self)
            }),
    {
        if self.active_tab >= 1 {
            self.active_tab = self.active_tab - 1;
        }
    }

    /// Replaces the active tab's content.
    pub fn set_content(&mut self, value: String)
        requires
            old(self).wf(),
        ensures
            final(self).wf(),
            final(self).tabs@ == old(self).tabs@.update(
                old(self).active_tab as int,
                (Tab { content: value, ..old(self).active() }),
            ),
            final(self).active_tab == old(self).active_tab,
            final(self).scroll == old(self).scroll,
            final(self).should_exit == old(self).should_exit,
            final(self).current_screen == old(self).current_screen,
            final(self).currently_typing == old(self).currently_typing,
    {
        self.tabs[self.active_tab].content = value;
    }

    /// Whether the active tab holds any content.
    pub fn has_content(&self) -> (r: bool)
        requires
            self.wf(),
        ensures
            r == (self.active().content@.len() != 0),
    {
        !self.tabs[self.active_tab].content.as_str().is_empty()
    }

    /// Takes the active tab's typed address over as its address.
    pub fn set_url(&mut self)
        requires
            old(self).wf(),
        ensures
            final(self).wf(),
            final(self).tabs@ == old(self).tabs@.update(
                old(self).active_tab as int,
                (Tab { url: old(self).active().url_field, ..old(self).active() }),
            ),
            final(self).active_tab == old(self).active_tab,
            final(self).scroll == old(self).scroll,
            final(self).should_exit == old(self).should_exit,
            final(self).current_screen == old(self).current_screen,
            final(self).currently_typing == old(self).currently_typing,
    {
        self.tabs[self.active_tab].set_url();
    }

    /// Appends one character to the address being typed in the active tab.
    pub fn push_url_char(&mut self, c: char)
        requires
            old(self).wf(),
        ensures
            final(self).wf(),
            final(self).tabs@ == old(self).tabs@.update(
                old(self).active_tab as int,
                (Tab {
                    url_field: final(self).active().url_field,
                    ..old(self).active()
                }),
            ),
            final(self).active().url_field@ == old(self).active().url_field@.push(c),
            final(self).active_tab == old(self).active_tab,
            final(self).scroll == old(self).scroll,
            final(self).should_exit == old(self).should_exit,
            final(self).current_screen == old(self).current_screen,
            final(self).currently_typing == old(self).currently_typing,
    {
        push_char(&mut self.tabs[self.active_tab].url_field, c);
    }

    /// Removes the last character of the address being typed in the active
    /// tab, if there is one.
    pub fn pop_url_char(&mut self)
        requires
            old(self).wf(),
        ensures
            final(self).wf(),
            final(self).tabs@ == old(self).tabs@.update(
                old(self).active_tab as int,
                (Tab {
                    url_field: final(self).active().url_field,
                    ..old(self).active()
                }),
            ),
            final(self).active().url_field@ == (if old(self).active().url_field@.len() > 0 {
                old(self).active().url_field@.drop_last()
            } else {
                old(self).active().url_field@
            }),
            final(self).active_tab == old(self).active_tab,
            final(self).scroll == old(self).scroll,
            final(self).should_exit == old(self).should_exit,
            final(self).current_screen == old(self).current_screen,
            final(self).currently_typing == old(self).currently_typing,
    {
        let _ = pop_char(&mut self.tabs[self.active_tab].url_field);
    }

    /// Scrolls the content pane up by two lines, not past the top.  An
    /// offset of one stays put, as the step is two.
    pub fn scroll_up(&mut self)
        ensures
            *final(self) == (Browser {
                scroll: (if old(self).scroll >= 2 {
                    old(self).scroll - 2
                } else {
                    old(self).scroll as int
                }) as u16,
                ..*old(self)
            }),
    {
        if self.scroll >= 2 {
            self.scroll = self.scroll - 2;
        }
    }

    /// Scrolls the content pane down by two lines, clamped to the number
    /// of lines the active tab's content shows.
    pub fn scroll_down(&mut self)
        requires
            old(self).wf(),
            line_count(old(self).active().content@) <= u16::MAX,
        ensures
            *final(self) == (Browser {
                scroll: (if old(self).scroll <= u16::MAX - 2 {
                    if old(self).scroll + 2 <= line_count(old(self).active().content@) {
                        old(self).scroll + 2
                    } else {
                        line_count(old(self).active().content@) as int
                    }
                } else {
                    old(self).scroll as int
                }) as u16,
                ..*old(self)
            }),
    {
        if self.scroll <= u16::MAX - 2 {
            let lines: usize = count_lines(self.active_tab().content.as_str());
            let lines16: u16 = lines as u16;
            let target: u16 = self.scroll + 2;
            self.scroll = if target <= lines16 {
                target
            } else {
                lines16
            };
        }
    }
}

} // verus!
