//! Shared vocabulary exchanged between plugins and the controller.

use vstd::prelude::*;

verus! {

/// Capacity of every mailbox between the controller and a plugin.
pub const MAILBOX_CAPACITY: usize = 100;

/// One presentable, activatable result contributed by a plugin.
///
/// `id` is unique within its owning plugin and serves as the activation
/// key; `action` is a tag describing what activation means (empty means
/// no-op); `meta` is free-form secondary text such as a category.
pub struct Entry {
    pub id: String,
    pub title: String,
    pub action: String,
    pub meta: String,
}

/// Mathematical abstraction of an [`Entry`]: its four fields as
/// character sequences.
pub ghost struct EntryView {
    pub id: Seq<char>,
    pub title: Seq<char>,
    pub action: Seq<char>,
    pub meta: Seq<char>,
}

impl View for Entry {
    type V = EntryView;

    open spec fn view(&self) -> EntryView {
        EntryView {
            id: self.id@,
            title: self.title@,
            action: self.action@,
            meta: self.meta@,
        }
    }
}

impl DeepView for Entry {
    type V = EntryView;

    open spec fn deep_view(&self) -> EntryView {
        self.view()
    }
}

impl Clone for Entry {
    fn clone(&self) -> (r: Self)
        ensures
            r@ == self@,
    {
        Entry {
            id: self.id.clone(),
            title: self.title.clone(),
            action: self.action.clone(),
            meta: self.meta.clone(),
        }
    }
}

/// A request routed from the controller into one plugin's mailbox.
///
/// `Timeout` is synthesized by the plugin itself when no request arrives
/// within the poll interval; it never travels through a mailbox from the
/// controller.
pub enum PluginRequest {
    Search(String),
    Activate(String),
    Timeout,
}

/// Mathematical abstraction of a [`PluginRequest`].
pub ghost enum RequestView {
    Search(Seq<char>),
    Activate(Seq<char>),
    Timeout,
}

impl View for PluginRequest {
    type V = RequestView;

    open spec fn view(&self) -> RequestView {
        match self {
            PluginRequest::Search(q) => RequestView::Search(q@),
            PluginRequest::Activate(id) => RequestView::Activate(id@),
            PluginRequest::Timeout => RequestView::Timeout,
        }
    }
}

impl DeepView for PluginRequest {
    type V = RequestView;

    open spec fn deep_view(&self) -> RequestView {
        self.view()
    }
}

impl Clone for PluginRequest {
    fn clone(&self) -> (r: Self)
        ensures
            r@ == self@,
    {
        match self {
            PluginRequest::Search(q) => PluginRequest::Search(q.clone()),
            PluginRequest::Activate(id) => PluginRequest::Activate(id.clone()),
            PluginRequest::Timeout => PluginRequest::Timeout,
        }
    }
}

/// One external command an activation side effect runs: a program name
/// and its arguments. The library only decides the command; spawning it
/// stays with the caller.
pub struct ActivationCommand {
    pub program: String,
    pub args: Vec<String>,
}

/// Mathematical abstraction of an [`ActivationCommand`].
pub ghost struct CommandView {
    pub program: Seq<char>,
    pub args: Seq<Seq<char>>,
}

impl View for ActivationCommand {
    type V = CommandView;

    open spec fn view(&self) -> CommandView {
        CommandView { program: self.program@, args: self.args.deep_view() }
    }
}

impl DeepView for ActivationCommand {
    type V = CommandView;

    open spec fn deep_view(&self) -> CommandView {
        self.view()
    }
}

/// A message emitted by a plugin toward the controller.
///
/// `RegisterPlugin` is the one-shot handshake announcing the plugin and
/// its initial entries; `Clear` empties the plugin's section of the
/// registry; `AppendEntry` appends one filtered entry; `Exit` asks the
/// controller to shut the application down.
pub enum ControllerMessage {
    RegisterPlugin { id: String, priority: u32, title: String, entries: Vec<Entry> },
    Clear { plugin_id: String },
    AppendEntry { plugin_id: String, entry: Entry },
    Exit,
}

/// Mathematical abstraction of a [`ControllerMessage`].
pub ghost enum MessageView {
    RegisterPlugin { id: Seq<char>, priority: u32, title: Seq<char>, entries: Seq<EntryView> },
    Clear { plugin_id: Seq<char> },
    AppendEntry { plugin_id: Seq<char>, entry: EntryView },
    Exit,
}

impl View for ControllerMessage {
    type V = MessageView;

    open spec fn view(&self) -> MessageView {
        match self {
            ControllerMessage::RegisterPlugin { id, priority, title, entries } => {
                MessageView::RegisterPlugin {
                    id: id@,
                    priority: *priority,
                    title: title@,
                    entries: entries.deep_view(),
                }
            },
            ControllerMessage::Clear { plugin_id } => {
                MessageView::Clear { plugin_id: plugin_id@ }
            },
            ControllerMessage::AppendEntry { plugin_id, entry } => {
                MessageView::AppendEntry { plugin_id: plugin_id@, entry: entry@ }
            },
            ControllerMessage::Exit => MessageView::Exit,
        }
    }
}

impl DeepView for ControllerMessage {
    type V = MessageView;

    open spec fn deep_view(&self) -> MessageView {
        self.view()
    }
}

} // verus!
