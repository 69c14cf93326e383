use vstd::prelude::*;
use vstd::string::*;
use crate::completion::{completion_items_for_static_keywords, labels, CompletionItem};
use crate::document::Position;
use crate::paths::same_text;

verus! {

/// What a plugin tells about itself.
#[derive(Clone, Debug)]
pub struct PluginInfo {
    pub name: String,
    pub description: String,
    pub version: String,
}

/// What a plugin can do for the analyzer.
pub trait PluginCapability: Send + Sync {
    /// The proposals of the plugin for a place in a file.
    fn handle_completion(&self, uri: &str, position: Position, trigger_char: &str) -> Vec<
        CompletionItem,
    >;
}

/// A plugin of the analyzer.
pub trait MakepadAnalyzerPlugin: Send + Sync {
    /// What the plugin tells about itself.
    fn plugin_info(&self) -> PluginInfo;

    /// The kind of thing that does what the plugin can do.
    type Capability: PluginCapability;

    /// What the plugin can do.
    fn capabilities(&self) -> &Self::Capability;
}

/// The proposals in the order given, each label once: of two proposals with
/// one label the first stays.
pub open spec fn merged(items: Seq<CompletionItem>) -> Seq<CompletionItem>
    decreases items.len(),
{
    if items.len() == 0 {
        items
    } else if labels(items.drop_last()).contains(items.last().label@) {
        merged(items.drop_last())
    } else {
        merged(items.drop_last()).push(items.last())
    }
}

/// What is merged holds every label of what was given, and no other.
pub proof fn lemma_merged_labels(items: Seq<CompletionItem>, label: Seq<char>)
    ensures
        labels(merged(items)).contains(label) <==> labels(items).contains(label),
        labels(merged(items)).no_duplicates(),
    decreases items.len(),
{
    if items.len() > 0 {
        let rest = items.drop_last();
        let last = items.last();
        lemma_merged_labels(rest, label);
        lemma_merged_labels(rest, last.label@);
        let all = labels(items);
        let before = labels(rest);
        let kept = labels(merged(rest));
        assert(all =~= before.push(last.label@));
        if all.contains(label) {
            let i = choose|i: int| 0 <= i < all.len() && all[i] == label;
            if i < before.len() {
                assert(before[i] == label);
            }
        }
        if before.contains(label) {
            let i = choose|i: int| 0 <= i < before.len() && before[i] == label;
            assert(all[i] == label);
        }
        assert(all[all.len() - 1] == last.label@);
        if !before.contains(last.label@) {
            let now = labels(merged(items));
            assert(now =~= kept.push(last.label@));
            if now.contains(label) {
                let i = choose|i: int| 0 <= i < now.len() && now[i] == label;
                if i < kept.len() {
                    assert(kept[i] == label);
                }
            }
            if kept.contains(label) {
                let i = choose|i: int| 0 <= i < kept.len() && kept[i] == label;
                assert(now[i] == label);
            }
            assert(now[now.len() - 1] == last.label@);
            assert forall|i: int, j: int| 0 <= i < now.len() && 0 <= j < now.len() && i != j implies now[i]
                != now[j] by {
                if i < kept.len() {
                    assert(kept[i] == now[i]);
                }
                if j < kept.len() {
                    assert(kept[j] == now[j]);
                }
            }
        }
    }
}

/// Whether a proposal with this label is among `items`.
fn has_label(items: &Vec<CompletionItem>, label: &str) -> (found: bool)
    ensures
        found == labels(items@).contains(label@),
{
    let mut i: usize = 0;
    while i < items.len()
        invariant
            i <= items@.len(),
            forall|k: int| 0 <= k < i ==> labels(items@)[k] != label@,
        decreases items@.len() - i,
    {
        if same_text(items[i].label.as_str(), label) {
            assert(labels(items@)[i as int] == label@);
            return true;
        }
        i += 1;
    }
    false
}

/// Puts the proposals of several providers together, in the order given,
/// each label once.
pub fn merge_completions(found: Vec<CompletionItem>) -> (items: Vec<CompletionItem>)
    ensures
        items@ == merged(found@),
{
    let mut found = found;
    let ghost all = found@;
    let mut items: Vec<CompletionItem> = Vec::new();
    let ghost mut taken: int = 0;
    while found.len() > 0
        invariant
            0 <= taken <= all.len(),
            found@ == all.skip(taken),
            items@ == merged(all.take(taken)),
        decreases found@.len(),
    {
        let item = found.remove(0);
        proof {
            assert(item == all[taken]);
            assert(found@ =~= all.skip(taken + 1));
            assert(all.take(taken + 1).drop_last() =~= all.take(taken));
            lemma_merged_labels(all.take(taken), item.label@);
        }
        if !has_label(&items, item.label.as_str()) {
            items.push(item);
        }
        proof {
            taken = taken + 1;
        }
    }
    assert(all.take(all.len() as int) =~= all);
    items
}

/// Whether `info` is what `plugin` tells about itself when asked.
pub open spec fn tells<P: MakepadAnalyzerPlugin>(plugin: P, info: PluginInfo) -> bool {
    call_ensures(P::plugin_info, (&plugin,), info)
}

/// Whether `given` is what `plugin` proposes for a place in a file when
/// asked through what it can do.
pub open spec fn proposes<P: MakepadAnalyzerPlugin>(
    plugin: P,
    uri: &str,
    position: Position,
    trigger_char: &str,
    given: Vec<CompletionItem>,
) -> bool {
    exists|capability: &P::Capability|
        call_ensures(P::capabilities, (&plugin,), capability) && call_ensures(
            P::Capability::handle_completion,
            (capability, uri, position, trigger_char),
            given,
        )
}

/// The proposals of several answers in a row.
pub open spec fn gathered(answers: Seq<Vec<CompletionItem>>) -> Seq<CompletionItem>
    decreases answers.len(),
{
    if answers.len() == 0 {
        Seq::empty()
    } else {
        gathered(answers.drop_last()) + answers.last()@
    }
}

/// Collects plugins for a manager.
pub struct PluginManagerBuilder<P: MakepadAnalyzerPlugin> {
    plugin_manager: PluginManager<P>,
}

impl<P: MakepadAnalyzerPlugin> PluginManagerBuilder<P> {
    /// The number of plugins collected.
    pub closed spec fn count(&self) -> nat {
        self.plugin_manager.plugins@.len()
    }

    /// The plugins collected, in the order they were applied.
    pub closed spec fn collected(&self) -> Seq<P> {
        self.plugin_manager.plugins@
    }

    pub fn new() -> (builder: Self)
        ensures
            builder.count() == 0,
            builder.collected() == Seq::<P>::empty(),
    {
        PluginManagerBuilder { plugin_manager: PluginManager { plugins: Vec::new() } }
    }

    pub fn apply_plugin(self, plugin: P) -> (builder: Self)
        ensures
            builder.count() == self.count() + 1,
            builder.collected() == self.collected().push(plugin),
    {
        let mut builder = self;
        builder.plugin_manager.register_plugin(plugin);
        builder
    }

    pub fn finish(self) -> (manager: PluginManager<P>)
        ensures
            manager.count() == self.count(),
            manager.registered() == self.collected(),
    {
        self.plugin_manager
    }
}

/// The plugins of the analyzer, in the order they were registered.
pub struct PluginManager<P: MakepadAnalyzerPlugin> {
    plugins: Vec<P>,
}

impl<P: MakepadAnalyzerPlugin> PluginManager<P> {
    /// The number of plugins registered.
    pub closed spec fn count(&self) -> nat {
        self.plugins@.len()
    }

    /// The plugins registered, in the order of registration.
    pub closed spec fn registered(&self) -> Seq<P> {
        self.plugins@
    }

    /// What every plugin tells about itself, in the order of registration.
    pub fn get_all_registered_plugin_info(&self) -> (infos: Vec<PluginInfo>)
        ensures
            infos@.len() == self.count(),
            infos@.len() == self.registered().len(),
            forall|k: int|
                0 <= k < infos@.len() ==> tells(self.registered()[k], #[trigger] infos@[k]),
    {
        let mut infos: Vec<PluginInfo> = Vec::new();
        let mut i: usize = 0;
        while i < self.plugins.len()
            invariant
                i <= self.plugins@.len(),
                infos@.len() == i,
                forall|k: int| 0 <= k < i ==> tells(self.plugins@[k], #[trigger] infos@[k]),
            decreases self.plugins@.len() - i,
        {
            infos.push(self.plugins[i].plugin_info());
            i += 1;
        }
        infos
    }

    /// What the first plugin of the name `plugin_name` tells about itself.
    /// The plugins are asked in the order of registration, up to the first
    /// that gives the name; `asked` stands for what they told.
    pub fn get_registered_plugin_info(&self, plugin_name: &str) -> (info: Option<PluginInfo>)
        ensures
            self.registered().len() == self.count(),
            exists|asked: Seq<PluginInfo>|
                {
                    &&& asked.len() <= self.registered().len()
                    &&& forall|k: int|
                        0 <= k < asked.len() ==> tells(self.registered()[k], #[trigger] asked[k])
                    &&& match info {
                        Some(found) => {
                            &&& asked.len() > 0
                            &&& found == asked.last()
                            &&& found.name@ == plugin_name@
                            &&& forall|k: int|
                                0 <= k < asked.len() - 1 ==> (#[trigger] asked[k]).name@
                                    != plugin_name@
                        },
                        None => {
                            &&& asked.len() == self.registered().len()
                            &&& forall|k: int|
                                0 <= k < asked.len() ==> (#[trigger] asked[k]).name@
                                    != plugin_name@
                        },
                    }
                },
    {
        let ghost mut asked: Seq<PluginInfo> = Seq::empty();
        let mut i: usize = 0;
        while i < self.plugins.len()
            invariant
                i <= self.plugins@.len(),
                asked.len() == i,
                forall|k: int| 0 <= k < i ==> tells(self.plugins@[k], #[trigger] asked[k]),
                forall|k: int| 0 <= k < i ==> (#[trigger] asked[k]).name@ != plugin_name@,
            decreases self.plugins@.len() - i,
        {
            let info = self.plugins[i].plugin_info();
            proof {
                asked = asked.push(info);
            }
            if same_text(info.name.as_str(), plugin_name) {
                assert(info == asked.last());
                return Some(info);
            }
            i += 1;
        }
        None
    }

    /// The plugins, in the order of registration.
    pub fn get_plugins(&self) -> (plugins: &Vec<P>)
        ensures
            plugins@.len() == self.count(),
    {
        &self.plugins
    }

    fn register_plugin(&mut self, plugin: P)
        ensures
            final(self).count() == old(self).count() + 1,
            final(self).registered() == old(self).registered().push(plugin),
    {
        self.plugins.push(plugin);
    }

    /// The proposals of all plugins for a place in a file: every plugin is
    /// asked, in the order of registration, and what they answer is put
    /// together, each label once; `answers` stands for what they answered.
    pub fn handle_completion(&self, uri: &str, position: Position, trigger_char: &str) -> (items:
        Vec<CompletionItem>)
        ensures
            labels(items@).no_duplicates(),
            self.count() == 0 ==> items@.len() == 0,
            exists|answers: Seq<Vec<CompletionItem>>|
                {
                    &&& answers.len() == self.registered().len()
                    &&& forall|k: int|
                        0 <= k < answers.len() ==> proposes(
                            self.registered()[k],
                            uri,
                            position,
                            trigger_char,
                            #[trigger] answers[k],
                        )
                    &&& items@ == merged(gathered(answers))
                },
    {
        let mut found: Vec<CompletionItem> = Vec::new();
        let ghost mut answers: Seq<Vec<CompletionItem>> = Seq::empty();
        let mut i: usize = 0;
        while i < self.plugins.len()
            invariant
                i <= self.plugins@.len(),
                answers.len() == i,
                found@ == gathered(answers),
                forall|k: int|
                    0 <= k < i ==> proposes(
                        self.plugins@[k],
                        uri,
                        position,
                        trigger_char,
                        #[trigger] answers[k],
                    ),
            decreases self.plugins@.len() - i,
        {
            let capability = self.plugins[i].capabilities();
            let mut given = capability.handle_completion(uri, position, trigger_char);
            proof {
                assert(proposes(self.plugins@[i as int], uri, position, trigger_char, given));
                assert(answers.push(given).drop_last() =~= answers);
                answers = answers.push(given);
            }
            found.append(&mut given);
            i += 1;
        }
        proof {
            lemma_merged_labels(found@, Seq::empty());
        }
        merge_completions(found)
    }
}

/// What the live plugin can do.
pub struct LivePluginCapability;

impl PluginCapability for LivePluginCapability {
    fn handle_completion(&self, uri: &str, position: Position, trigger_char: &str) -> (items:
        Vec<CompletionItem>)
        ensures
            labels(items@) == seq!["dep"@, "pub"@],
    {
        handle_completion(uri, position, trigger_char)
    }
}

/// The proposals of the live plugin: those for the keywords `pub` and
/// `dep`, whatever the place.
pub fn handle_completion(uri: &str, position: Position, trigger_char: &str) -> (items: Vec<
    CompletionItem,
>)
    ensures
        labels(items@) == seq!["dep"@, "pub"@],
{
    let items = completion_items_for_static_keywords();
    assert(labels(items@) =~= seq!["dep"@, "pub"@]);
    items
}

/// The plugin for live design blocks.
pub struct MakepadAnalyzerLivePlugin {
    plugin_info: PluginInfo,
    capability: LivePluginCapability,
}

impl MakepadAnalyzerPlugin for MakepadAnalyzerLivePlugin {
    fn plugin_info(&self) -> (info: PluginInfo)
        ensures
            info == self.info(),
    {
        PluginInfo {
            name: self.plugin_info.name.clone(),
            description: self.plugin_info.description.clone(),
            version: self.plugin_info.version.clone(),
        }
    }

    type Capability = LivePluginCapability;

    fn capabilities(&self) -> &LivePluginCapability {
        &self.capability
    }
}

impl MakepadAnalyzerLivePlugin {
    /// What the plugin tells about itself.
    pub closed spec fn info(&self) -> PluginInfo {
        self.plugin_info
    }

    pub fn new() -> (plugin: Self)
        ensures
            plugin.info().name@ == "Makepad Analyzer Live Plugin"@,
            plugin.info().description@
                == "A plugin for the Makepad Analyzer that provides live completion"@,
            plugin.info().version@ == "0.0.1"@,
    {
        MakepadAnalyzerLivePlugin {
            plugin_info: PluginInfo {
                name: "Makepad Analyzer Live Plugin".to_owned(),
                description: "A plugin for the Makepad Analyzer that provides live completion".to_owned(),
                version: "0.0.1".to_owned(),
            },
            capability: LivePluginCapability,
        }
    }
}

} // verus!
