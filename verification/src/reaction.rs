//! The reaction module: which commands exist, and how one is answered.
//!
//! The module holds the reaction definitions and the cache manager. It turns
//! the definitions into the commands to register, and an invoked command into
//! the reply to send. Registering and sending are the caller's part.

use crate::lifecycle::Event;
use crate::lifecycle::pending;
use crate::lifecycle::step;
use crate::manager::BackendManager;
use crate::manager::BuildError;
use crate::manager::fresh_cache;
use crate::manager::key_views;
use crate::random::random_usize;
use crate::registry::BackendDescriptor;
use crate::registry::InitError;
use crate::registry::all_pairs;
use crate::registry::backend_views;
use crate::registry::defect_at;
use crate::registry::valid_backends;
use crate::store::CacheKey;
use crate::store::KeyView;
use crate::store::Slot;
use crate::store::cached_in;
use crate::text::cut_at;
use crate::text::decimal;
use crate::text::decimal_string;
use crate::text::has_prefix;
use crate::text::replace_all;
use crate::text::replaced;
use crate::text::split_once;
use crate::text::views;
use vstd::prelude::*;

verus! {

/// One reaction, as the configuration defines it.
#[derive(Debug, Clone)]
pub struct Reaction {
    /// Name of the reaction.
    pub name: String,
    /// Description of the reaction.
    pub description: String,
    /// Whether the reaction is also a command of its own.
    pub alias: bool,
    /// Where the image may come from, each written `backend/endpoint`.
    pub backends: Vec<String>,
    /// Replies for a reaction to somebody else.
    pub default_responses: Vec<String>,
    /// Replies for a reaction to the bot.
    pub bot_responses: Vec<String>,
    /// Replies for a reaction to oneself.
    pub self_responses: Vec<String>,
}

/// What a [`Reaction`] stands for.
pub struct ReactionView {
    pub name: Seq<char>,
    pub description: Seq<char>,
    pub alias: bool,
    pub backends: Seq<Seq<char>>,
    pub default_responses: Seq<Seq<char>>,
    pub bot_responses: Seq<Seq<char>>,
    pub self_responses: Seq<Seq<char>>,
}

impl View for Reaction {
    type V = ReactionView;

    open spec fn view(&self) -> ReactionView {
        ReactionView {
            name: self.name@,
            description: self.description@,
            alias: self.alias,
            backends: views(self.backends@),
            default_responses: views(self.default_responses@),
            bot_responses: views(self.bot_responses@),
            self_responses: views(self.self_responses@),
        }
    }
}

/// What a list of reactions stands for.
pub open spec fn reaction_views(reactions: Seq<Reaction>) -> Seq<ReactionView> {
    Seq::new(reactions.len(), |i: int| reactions[i]@)
}

/// The value of a command option, as far as reactions read it.
#[derive(Debug)]
pub enum OptionValue {
    /// A subcommand with its own options.
    SubCommand(Vec<CommandOption>),
    /// A user, by id.
    User(u64),
    /// Any other value.
    Other,
}

/// One option of an invoked command.
#[derive(Debug)]
pub struct CommandOption {
    pub name: String,
    pub value: OptionValue,
}

/// An invoked command.
#[derive(Debug)]
pub struct Invocation {
    /// The command's name.
    pub name: String,
    /// The command's options, in order.
    pub options: Vec<CommandOption>,
    /// Who invoked the command.
    pub user: u64,
    /// The bot's own id.
    pub application: u64,
}

/// What a [`CommandOption`] stands for.
pub struct OptionView {
    pub name: Seq<char>,
    pub value: ValueView,
}

/// What an [`OptionValue`] stands for.
pub enum ValueView {
    SubCommand(Seq<OptionView>),
    User(u64),
    Other,
}

/// What an [`Invocation`] stands for.
pub struct InvocationView {
    pub name: Seq<char>,
    pub options: Seq<OptionView>,
    pub user: u64,
    pub application: u64,
}

/// What one option stands for.
pub open spec fn option_view(option: CommandOption) -> OptionView
    decreases option,
{
    OptionView { name: option.name@, value: value_view(option.value) }
}

/// What the value of an option stands for.
pub open spec fn value_view(value: OptionValue) -> ValueView
    decreases value,
{
    match value {
        OptionValue::SubCommand(inner) => ValueView::SubCommand(option_views(inner@)),
        OptionValue::User(id) => ValueView::User(id),
        OptionValue::Other => ValueView::Other,
    }
}

/// What a list of options stands for.
pub open spec fn option_views(options: Seq<CommandOption>) -> Seq<OptionView>
    decreases options,
{
    if options.len() == 0 {
        Seq::empty()
    } else {
        option_views(options.drop_last()).push(option_view(options.last()))
    }
}

/// The views of a list of options are the views of its options, one by one.
pub proof fn lemma_option_views(options: Seq<CommandOption>)
    ensures
        option_views(options).len() == options.len(),
        forall|i: int|
            0 <= i < options.len() ==> #[trigger] option_views(options)[i] == option_view(
                options[i],
            ),
    decreases options.len(),
{
    if options.len() > 0 {
        lemma_option_views(options.drop_last());
    }
}

impl View for OptionValue {
    type V = ValueView;

    open spec fn view(&self) -> ValueView {
        value_view(*self)
    }
}

impl View for CommandOption {
    type V = OptionView;

    open spec fn view(&self) -> OptionView {
        option_view(*self)
    }
}

impl View for Invocation {
    type V = InvocationView;

    open spec fn view(&self) -> InvocationView {
        InvocationView {
            name: self.name@,
            options: option_views(self.options@),
            user: self.user,
            application: self.application,
        }
    }
}

/// The reply to an invoked reaction.
#[derive(Debug)]
pub struct Reply {
    /// The text of the message.
    pub content: String,
    /// The address of the image to show.
    pub image_url: String,
    /// The backend the image came from.
    pub backend: String,
    /// The endpoint the image came from: the pair to refresh afterwards.
    pub endpoint: String,
}

/// What a [`Reply`] stands for.
pub struct ReplyView {
    pub content: Seq<char>,
    pub image_url: Seq<char>,
    pub backend: Seq<char>,
    pub endpoint: Seq<char>,
}

impl View for Reply {
    type V = ReplyView;

    open spec fn view(&self) -> ReplyView {
        ReplyView {
            content: self.content@,
            image_url: self.image_url@,
            backend: self.backend@,
            endpoint: self.endpoint@,
        }
    }
}

/// Why an invoked command got no reply.
#[derive(Debug, Clone, Copy, PartialEq, Eq)]
pub enum HandleError {
    /// A grouped command came without any option.
    NoSubcommand,
    /// The first option of a grouped command is no subcommand.
    InvalidSubcommand,
    /// No reaction has the name asked for.
    UnknownReaction,
    /// The reaction names no source for its image.
    NoBackend,
    /// The source chosen is not written `backend/endpoint`.
    NoEndpoint,
    /// No address is cached for the source chosen.
    NoCachedGif,
    /// The reaction has no reply for a reaction to oneself.
    NoSelfResponse,
    /// The reaction has no reply for a reaction to the bot.
    NoBotResponse,
    /// The reaction has no reply for a reaction to somebody else.
    NoDefaultResponse,
}

impl HandleError {
    /// What went wrong, in a few words.
    pub open spec fn text(self) -> Seq<char> {
        match self {
            HandleError::NoSubcommand => "no subcommand"@,
            HandleError::InvalidSubcommand => "invalid subcommand"@,
            HandleError::UnknownReaction => "unknown reaction"@,
            HandleError::NoBackend => "no backend"@,
            HandleError::NoEndpoint => "no endpoint"@,
            HandleError::NoCachedGif => "no cached gif"@,
            HandleError::NoSelfResponse => "no self response"@,
            HandleError::NoBotResponse => "no bot response"@,
            HandleError::NoDefaultResponse => "no default response"@,
        }
    }

    /// What went wrong, in a few words.
    pub fn message(&self) -> (s: &'static str)
        ensures
            s@ == self.text(),
    {
        match self {
            HandleError::NoSubcommand => "no subcommand",
            HandleError::InvalidSubcommand => "invalid subcommand",
            HandleError::UnknownReaction => "unknown reaction",
            HandleError::NoBackend => "no backend",
            HandleError::NoEndpoint => "no endpoint",
            HandleError::NoCachedGif => "no cached gif",
            HandleError::NoSelfResponse => "no self response",
            HandleError::NoBotResponse => "no bot response",
            HandleError::NoDefaultResponse => "no default response",
        }
    }
}

/// Whom a reaction is aimed at, seen from the one who invoked it.
#[derive(Debug, Clone, Copy, PartialEq, Eq)]
pub enum Audience {
    /// The user aims at themselves.
    Myself,
    /// The user aims at the bot.
    Bot,
    /// The user aims at somebody else.
    Other,
}

/// One subcommand of a grouped command: a reaction and what it does.
#[derive(Debug)]
pub struct SubcommandPlan {
    pub name: String,
    pub description: String,
}

/// A command to register.
///
/// A grouped command holds reactions as subcommands, each of which takes the
/// target user. An alias command has no subcommands and takes the target user
/// itself.
#[derive(Debug)]
pub struct CommandPlan {
    pub name: String,
    pub description: String,
    pub subcommands: Vec<SubcommandPlan>,
    pub takes_user: bool,
}

/// What is to be done once the reactions are loaded.
#[derive(Debug)]
pub struct InitPlan {
    /// The pairs to fetch for the warm-up.
    pub warm_up: Vec<CacheKey>,
    /// The commands to register.
    pub commands: Vec<CommandPlan>,
}

/// What a [`SubcommandPlan`] stands for.
pub struct SubcommandView {
    pub name: Seq<char>,
    pub description: Seq<char>,
}

/// What a [`CommandPlan`] stands for.
pub struct CommandPlanView {
    pub name: Seq<char>,
    pub description: Seq<char>,
    pub subcommands: Seq<SubcommandView>,
    pub takes_user: bool,
}

impl View for SubcommandPlan {
    type V = SubcommandView;

    open spec fn view(&self) -> SubcommandView {
        SubcommandView { name: self.name@, description: self.description@ }
    }
}

impl View for CommandPlan {
    type V = CommandPlanView;

    open spec fn view(&self) -> CommandPlanView {
        CommandPlanView {
            name: self.name@,
            description: self.description@,
            subcommands: Seq::new(self.subcommands@.len(), |i: int| self.subcommands@[i]@),
            takes_user: self.takes_user,
        }
    }
}

/// What a list of command plans stands for.
pub open spec fn plan_views(plans: Seq<CommandPlan>) -> Seq<CommandPlanView> {
    Seq::new(plans.len(), |i: int| plans[i]@)
}

/// The reaction module.
pub struct ReactionModule {
    reactions: Vec<Reaction>,
    aliases: Vec<String>,
    backend_manager: BackendManager,
}

/// How many reactions one grouped command holds at most.
pub const GROUP_SIZE: usize = 25;

/// Whether `at` is the place of the first reaction called `name`.
pub open spec fn is_first_named(reactions: Seq<ReactionView>, name: Seq<char>, at: int) -> bool {
    &&& 0 <= at < reactions.len()
    &&& reactions[at].name == name
    &&& forall|j: int| 0 <= j < at ==> (#[trigger] reactions[j]).name != name
}

/// The first reaction called `name`, if there is one.
pub open spec fn reaction_named(reactions: Seq<ReactionView>, name: Seq<char>) -> Option<
    ReactionView,
> {
    if exists|at: int| is_first_named(reactions, name, at) {
        Some(reactions[choose|at: int| is_first_named(reactions, name, at)])
    } else {
        None
    }
}

/// The names of the reactions that are commands of their own, in order.
pub open spec fn alias_names(reactions: Seq<ReactionView>) -> Seq<Seq<char>>
    decreases reactions.len(),
{
    if reactions.len() == 0 {
        Seq::empty()
    } else if reactions.last().alias {
        alias_names(reactions.drop_last()).push(reactions.last().name)
    } else {
        alias_names(reactions.drop_last())
    }
}

/// The reaction that `cmd` asks for, and the options that name its target.
///
/// A command whose name begins with `reaction` is a grouped one: its first
/// option must be a subcommand, which names the reaction and holds the
/// options. Any other command names the reaction itself.
pub open spec fn resolve_command(reactions: Seq<ReactionView>, cmd: InvocationView) -> Result<
    (ReactionView, Seq<OptionView>),
    HandleError,
> {
    if "reaction"@.is_prefix_of(cmd.name) {
        if cmd.options.len() == 0 {
            Err(HandleError::NoSubcommand)
        } else {
            match cmd.options[0].value {
                ValueView::SubCommand(inner) => match reaction_named(reactions, cmd.options[0].name) {
                    Some(reaction) => Ok((reaction, inner)),
                    None => Err(HandleError::UnknownReaction),
                },
                _ => Err(HandleError::InvalidSubcommand),
            }
        }
    } else {
        match reaction_named(reactions, cmd.name) {
            Some(reaction) => Ok((reaction, cmd.options)),
            None => Err(HandleError::UnknownReaction),
        }
    }
}

/// The user a reaction is aimed at: the user in the first option, or the bot
/// itself where the first option is missing or holds no user.
pub open spec fn target_of(options: Seq<OptionView>, application: u64) -> u64 {
    if options.len() > 0 {
        match options[0].value {
            ValueView::User(id) => id,
            _ => application,
        }
    } else {
        application
    }
}

/// Whom `user` aims at with `target`.
pub open spec fn audience_of(user: u64, target: u64, application: u64) -> Audience {
    if user == target {
        Audience::Myself
    } else if target == application {
        Audience::Bot
    } else {
        Audience::Other
    }
}

/// The replies of `reaction` that fit `audience`.
pub open spec fn templates_for(reaction: ReactionView, audience: Audience) -> Seq<Seq<char>> {
    match audience {
        Audience::Myself => reaction.self_responses,
        Audience::Bot => reaction.bot_responses,
        Audience::Other => reaction.default_responses,
    }
}

/// The error for a reaction without a reply for `audience`.
pub open spec fn missing_response(audience: Audience) -> HandleError {
    match audience {
        Audience::Myself => HandleError::NoSelfResponse,
        Audience::Bot => HandleError::NoBotResponse,
        Audience::Other => HandleError::NoDefaultResponse,
    }
}

/// The entry of a list that `roll` picks: the one at `roll` modulo the
/// list's length.
pub open spec fn picked(list: Seq<Seq<char>>, roll: usize) -> Seq<char> {
    list[(roll as int) % (list.len() as int)]
}

/// How a user is mentioned in a message.
pub open spec fn mention(id: u64) -> Seq<char> {
    "<@"@ + decimal(id as nat) + ">"@
}

/// The text of a reply: `template` with `{user}` and then `{target}` replaced
/// by the mentions, and a line that credits the backend and links the image.
pub open spec fn rendered(
    template: Seq<char>,
    user: u64,
    target: u64,
    backend: Seq<char>,
    image_url: Seq<char>,
) -> Seq<char> {
    replaced(replaced(template, "{user}"@, mention(user)), "{target}"@, mention(target))
        + "\n-# From: "@ + backend + " \u{2022} [Source](<"@ + image_url + ">)"@
}

/// The reply to `cmd`, given the number rolled for the source of the image
/// and the number rolled for the text.
pub open spec fn response(
    reactions: Seq<ReactionView>,
    cache: Map<KeyView, Slot>,
    cmd: InvocationView,
    backend_roll: usize,
    response_roll: usize,
) -> Result<ReplyView, HandleError> {
    match resolve_command(reactions, cmd) {
        Err(e) => Err(e),
        Ok((reaction, options)) => {
            let target = target_of(options, cmd.application);
            let audience = audience_of(cmd.user, target, cmd.application);
            let templates = templates_for(reaction, audience);
            if reaction.backends.len() == 0 {
                Err(HandleError::NoBackend)
            } else {
                match cut_at(picked(reaction.backends, backend_roll), '/') {
                    None => Err(HandleError::NoEndpoint),
                    Some((backend, endpoint)) => match cached_in(cache, (backend, endpoint)) {
                        None => Err(HandleError::NoCachedGif),
                        Some(image_url) => if templates.len() == 0 {
                            Err(missing_response(audience))
                        } else {
                            Ok(
                                ReplyView {
                                    content: rendered(
                                        picked(templates, response_roll),
                                        cmd.user,
                                        target,
                                        backend,
                                        image_url,
                                    ),
                                    image_url,
                                    backend,
                                    endpoint,
                                },
                            )
                        },
                    },
                }
            }
        },
    }
}

/// What the result of answering a command stands for.
pub open spec fn reply_view(result: Result<Reply, HandleError>) -> Result<ReplyView, HandleError> {
    match result {
        Ok(reply) => Ok(reply@),
        Err(e) => Err(e),
    }
}

/// Writes the mention of the user `id`.
pub fn mention_string(id: u64) -> (s: String)
    ensures
        s@ == mention(id),
{
    let mut s = String::from_str("<@");
    let number = decimal_string(id);
    s.append(number.as_str());
    s.append(">");
    s
}

/// Writes the text of a reply.
pub fn render_message(template: &str, user: u64, target: u64, backend: &str, image_url: &str) -> (s:
    String)
    ensures
        s@ == rendered(template@, user, target, backend@, image_url@),
{
    let user_mention = mention_string(user);
    let target_mention = mention_string(target);
    let with_user = replace_all(template, "{user}", user_mention.as_str());
    let mut s = replace_all(with_user.as_str(), "{target}", target_mention.as_str());
    s.append("\n-# From: ");
    s.append(backend);
    s.append(" \u{2022} [Source](<");
    s.append(image_url);
    s.append(">)");
    s
}

/// Tells whom `user` aims at with `target`.
pub fn audience(user: u64, target: u64, application: u64) -> (who: Audience)
    ensures
        who == audience_of(user, target, application),
{
    if user == target {
        Audience::Myself
    } else if target == application {
        Audience::Bot
    } else {
        Audience::Other
    }
}

/// Picks the entry of `list` at `roll` modulo the list's length.
fn pick(list: &Vec<String>, roll: usize) -> (s: &String)
    requires
        list@.len() > 0,
    ensures
        s@ == picked(views(list@), roll),
{
    &list[roll % list.len()]
}

/// The user that `options` aim at.
fn find_target(options: &Vec<CommandOption>, application: u64) -> (target: u64)
    ensures
        target == target_of(option_views(options@), application),
{
    proof {
        lemma_option_views(options@);
    }
    if options.len() > 0 {
        match &options[0].value {
            OptionValue::User(id) => *id,
            _ => application,
        }
    } else {
        application
    }
}

/// How many grouped commands `total` reactions need.
pub open spec fn group_count(total: nat) -> nat {
    (total + GROUP_SIZE - 1) as nat / (GROUP_SIZE as nat)
}

/// The name of the grouped command at `index`: `reaction` for the first,
/// then `reaction2`, `reaction3` and so on.
pub open spec fn group_name(index: nat) -> Seq<char> {
    if index == 0 {
        "reaction"@
    } else {
        "reaction"@ + decimal(index + 1)
    }
}

/// The subcommand for one reaction.
pub open spec fn subcommand_of(reaction: ReactionView) -> SubcommandView {
    SubcommandView { name: reaction.name, description: reaction.description }
}

/// The reactions of the grouped command at `index`.
pub open spec fn group_members(reactions: Seq<ReactionView>, index: int) -> Seq<ReactionView> {
    let from = GROUP_SIZE * index;
    let to = if from + GROUP_SIZE < reactions.len() {
        from + GROUP_SIZE
    } else {
        reactions.len() as int
    };
    reactions.subrange(from, to)
}

/// The grouped command at `index`.
pub open spec fn group_plan(reactions: Seq<ReactionView>, index: int) -> CommandPlanView {
    let members = group_members(reactions, index);
    CommandPlanView {
        name: group_name(index as nat),
        description: "React to someone with an animated gif."@,
        subcommands: Seq::new(members.len(), |j: int| subcommand_of(members[j])),
        takes_user: false,
    }
}

/// The grouped commands: the reactions in order, `GROUP_SIZE` to a command.
pub open spec fn group_plans(reactions: Seq<ReactionView>) -> Seq<CommandPlanView> {
    Seq::new(group_count(reactions.len()), |index: int| group_plan(reactions, index))
}

/// The command of its own for one reaction.
pub open spec fn alias_plan(reaction: ReactionView) -> CommandPlanView {
    CommandPlanView {
        name: reaction.name,
        description: "[Alias for /reaction "@ + reaction.name + "] "@ + reaction.description,
        subcommands: Seq::empty(),
        takes_user: true,
    }
}

/// The alias commands: one for each reaction that asks for it, in order.
pub open spec fn alias_plans(reactions: Seq<ReactionView>) -> Seq<CommandPlanView>
    decreases reactions.len(),
{
    if reactions.len() == 0 {
        Seq::empty()
    } else if reactions.last().alias {
        alias_plans(reactions.drop_last()).push(alias_plan(reactions.last()))
    } else {
        alias_plans(reactions.drop_last())
    }
}

/// All commands to register: the grouped ones, then the aliases.
pub open spec fn command_plans(reactions: Seq<ReactionView>) -> Seq<CommandPlanView> {
    group_plans(reactions) + alias_plans(reactions)
}

/// Plans the grouped commands for `reactions`.
pub fn group_commands(reactions: &Vec<Reaction>) -> (plans: Vec<CommandPlan>)
    ensures
        plan_views(plans@) == group_plans(reaction_views(reactions@)),
{
    let ghost all = reaction_views(reactions@);
    let total = reactions.len();
    let mut plans: Vec<CommandPlan> = Vec::new();
    let mut from: usize = 0;
    while from < total
        invariant
            total == reactions@.len(),
            all == reaction_views(reactions@),
            from <= total,
            from == total || from == GROUP_SIZE * plans@.len(),
            from == total ==> plans@.len() == group_count(total as nat),
            plans@.len() <= group_count(total as nat),
            forall|k: int| 0 <= k < plans@.len() ==> (#[trigger] plans@[k])@ == group_plan(all, k),
        decreases total - from,
    {
        let index = plans.len();
        let to = if total - from > GROUP_SIZE {
            from + GROUP_SIZE
        } else {
            total
        };
        let ghost members = group_members(all, index as int);
        let mut subcommands: Vec<SubcommandPlan> = Vec::new();
        let mut at = from;
        while at < to
            invariant
                from <= at <= to <= reactions@.len(),
                all == reaction_views(reactions@),
                members == all.subrange(from as int, to as int),
                subcommands@.len() == at - from,
                forall|j: int|
                    0 <= j < subcommands@.len() ==> (#[trigger] subcommands@[j])@ == subcommand_of(
                        members[j],
                    ),
            decreases to - at,
        {
            let reaction = &reactions[at];
            subcommands.push(
                SubcommandPlan {
                    name: reaction.name.clone(),
                    description: reaction.description.clone(),
                },
            );
            at += 1;
        }
        let mut name = String::from_str("reaction");
        if index > 0 {
            let number = decimal_string((index + 1) as u64);
            name.append(number.as_str());
        }
        let plan = CommandPlan {
            name,
            description: String::from_str("React to someone with an animated gif."),
            subcommands,
            takes_user: false,
        };
        proof {
            assert(plan@.subcommands =~= group_plan(all, index as int).subcommands);
        }
        plans.push(plan);
        from = to;
    }
    plans
}

/// Plans the alias commands for `reactions`.
pub fn alias_commands(reactions: &Vec<Reaction>) -> (plans: Vec<CommandPlan>)
    ensures
        plan_views(plans@) == alias_plans(reaction_views(reactions@)),
{
    let ghost all = reaction_views(reactions@);
    let mut plans: Vec<CommandPlan> = Vec::new();
    let mut i: usize = 0;
    while i < reactions.len()
        invariant
            i <= reactions@.len(),
            all == reaction_views(reactions@),
            plan_views(plans@) == alias_plans(all.take(i as int)),
        decreases reactions@.len() - i,
    {
        let reaction = &reactions[i];
        proof {
            assert(all.take(i + 1).drop_last() =~= all.take(i as int));
        }
        if reaction.alias {
            let mut description = String::from_str("[Alias for /reaction ");
            description.append(reaction.name.as_str());
            description.append("] ");
            description.append(reaction.description.as_str());
            let plan = CommandPlan {
                name: reaction.name.clone(),
                description,
                subcommands: Vec::new(),
                takes_user: true,
            };
            proof {
                assert(plan@.subcommands =~= Seq::<SubcommandView>::empty());
            }
            plans.push(plan);
        }
        i += 1;
    }
    assert(all.take(i as int) =~= all);
    plans
}

/// Lists the names of the reactions that are commands of their own.
fn collect_aliases(reactions: &Vec<Reaction>) -> (names: Vec<String>)
    ensures
        views(names@) == alias_names(reaction_views(reactions@)),
{
    let ghost all = reaction_views(reactions@);
    let mut names: Vec<String> = Vec::new();
    let mut i: usize = 0;
    while i < reactions.len()
        invariant
            i <= reactions@.len(),
            all == reaction_views(reactions@),
            views(names@) == alias_names(all.take(i as int)),
        decreases reactions@.len() - i,
    {
        let reaction = &reactions[i];
        proof {
            assert(all.take(i + 1).drop_last() =~= all.take(i as int));
        }
        if reaction.alias {
            names.push(reaction.name.clone());
        }
        i += 1;
    }
    assert(all.take(i as int) =~= all);
    names
}

impl ReactionModule {
    /// The reaction definitions.
    pub closed spec fn reactions(&self) -> Seq<ReactionView> {
        reaction_views(self.reactions@)
    }

    /// The names that are commands of their own.
    pub closed spec fn aliases(&self) -> Seq<Seq<char>> {
        views(self.aliases@)
    }

    /// The cache manager.
    pub closed spec fn manager(&self) -> BackendManager {
        self.backend_manager
    }

    /// Creates the module for `backends`, without reactions and with an empty
    /// cache. Fails where the cache manager turns the configuration down.
    pub fn new(backends: Vec<BackendDescriptor>) -> (r: Result<ReactionModule, InitError>)
        ensures
            match r {
                Ok(module) => {
                    &&& module.reactions() == Seq::<ReactionView>::empty()
                    &&& module.aliases() == Seq::<Seq<char>>::empty()
                    &&& module.manager().backends() == backend_views(backends@)
                    &&& valid_backends(module.manager().backends())
                    &&& module.manager()@ == fresh_cache(module.manager().backends())
                },
                Err(e) => exists|i: int|
                    0 <= i < backends@.len() && #[trigger] defect_at(backend_views(backends@), i)
                        == Some(e) && forall|j: int|
                        0 <= j < i ==> defect_at(backend_views(backends@), j) is None,
            },
    {
        match BackendManager::new(backends) {
            Ok(backend_manager) => {
                let module = ReactionModule {
                    reactions: Vec::new(),
                    aliases: Vec::new(),
                    backend_manager,
                };
                Ok(module)
            },
            Err(e) => Err(e),
        }
    }

    /// Loads `reactions` and plans what follows: the fetches of the warm-up
    /// and the commands to register.
    ///
    /// The reactions are stored first. Then the warm-up is asked for; where it
    /// cannot be attempted, the error is handed back and the aliases stay as
    /// they were. Otherwise the aliases are renewed and the plan is returned.
    pub fn init(&mut self, reactions: Vec<Reaction>) -> (r: Result<InitPlan, BuildError>)
        ensures
            final(self).reactions() == reaction_views(reactions@),
            final(self).manager().backends() == old(self).manager().backends(),
            match r {
                Ok(plan) => {
                    &&& all_pairs(old(self).manager().backends()).len() > 0
                    &&& key_views(plan.warm_up@) == pending(
                        all_pairs(old(self).manager().backends()),
                        old(self).manager()@,
                    )
                    &&& final(self).manager()@ == step(old(self).manager()@, Event::Build)
                    &&& plan_views(plan.commands@) == command_plans(reaction_views(reactions@))
                    &&& final(self).aliases() == alias_names(reaction_views(reactions@))
                },
                Err(e) => {
                    &&& e == BuildError::NothingToWarm
                    &&& all_pairs(old(self).manager().backends()).len() == 0
                    &&& final(self).manager()@ == old(self).manager()@
                    &&& final(self).aliases() == old(self).aliases()
                },
            },
    {
        self.reactions = reactions;
        let warm_up = match self.backend_manager.build_cache() {
            Ok(keys) => keys,
            Err(e) => {
                return Err(e);
            },
        };
        let mut commands = group_commands(&self.reactions);
        let mut aliases = alias_commands(&self.reactions);
        commands.append(&mut aliases);
        self.aliases = collect_aliases(&self.reactions);
        Ok(InitPlan { warm_up, commands })
    }

    /// The cache manager, for lookups.
    pub fn backend_manager(&self) -> (m: &BackendManager)
        ensures
            *m == self.manager(),
    {
        &self.backend_manager
    }

    /// The cache manager, for refresh requests and reports.
    pub fn backend_manager_mut(&mut self) -> (m: &mut BackendManager)
        ensures
            *m == old(self).manager(),
            final(self).manager() == *final(m),
            final(self).reactions() == old(self).reactions(),
            final(self).aliases() == old(self).aliases(),
    {
        &mut self.backend_manager
    }

    /// Whether the module answers the command called `name`: every command
    /// whose name begins with `reaction`, and every alias.
    pub fn handles(&self, name: &str) -> (r: bool)
        ensures
            r == ("reaction"@.is_prefix_of(name@) || self.aliases().contains(name@)),
    {
        if has_prefix(name, "reaction") {
            return true;
        }
        let wanted = String::from_str(name);
        let mut i: usize = 0;
        while i < self.aliases.len()
            invariant
                i <= self.aliases@.len(),
                wanted@ == name@,
                forall|j: int| 0 <= j < i ==> self.aliases@[j]@ != name@,
            decreases self.aliases@.len() - i,
        {
            if self.aliases[i] == wanted {
                assert(self.aliases()[i as int] == name@);
                return true;
            }
            i += 1;
        }
        false
    }

    /// Finds the reaction that `cmd` asks for and the options that name its
    /// target.
    fn resolve<'a>(&'a self, cmd: &'a Invocation) -> (r: Result<
        (&'a Reaction, &'a Vec<CommandOption>),
        HandleError,
    >)
        ensures
            match r {
                Ok((reaction, options)) => resolve_command(self.reactions(), cmd@) == Ok::<
                    (ReactionView, Seq<OptionView>),
                    HandleError,
                >((reaction@, option_views(options@))),
                Err(e) => resolve_command(self.reactions(), cmd@) == Err::<
                    (ReactionView, Seq<OptionView>),
                    HandleError,
                >(e),
            },
    {
        proof {
            lemma_option_views(cmd.options@);
        }
        if has_prefix(cmd.name.as_str(), "reaction") {
            if cmd.options.len() == 0 {
                return Err(HandleError::NoSubcommand);
            }
            let subcommand = &cmd.options[0];
            match &subcommand.value {
                OptionValue::SubCommand(inner) => match self.find(subcommand.name.as_str()) {
                    Some(reaction) => Ok((reaction, inner)),
                    None => Err(HandleError::UnknownReaction),
                },
                _ => Err(HandleError::InvalidSubcommand),
            }
        } else {
            match self.find(cmd.name.as_str()) {
                Some(reaction) => Ok((reaction, &cmd.options)),
                None => Err(HandleError::UnknownReaction),
            }
        }
    }

    /// Answers `cmd` with the numbers already rolled: `backend_roll` picks the
    /// source of the image among the reaction's sources, `response_roll` the
    /// text among the replies that fit the target.
    ///
    /// The image is the one cached for the source; nothing is fetched. The
    /// reply names the pair it used, for the caller to refresh once the reply
    /// is sent.
    pub fn respond(&self, cmd: &Invocation, backend_roll: usize, response_roll: usize) -> (r: Result<
        Reply,
        HandleError,
    >)
        ensures
            reply_view(r) == response(
                self.reactions(),
                self.manager()@,
                cmd@,
                backend_roll,
                response_roll,
            ),
    {
        let (reaction, options) = match self.resolve(cmd) {
            Ok(found) => found,
            Err(e) => {
                return Err(e);
            },
        };
        let target = find_target(options, cmd.application);
        if reaction.backends.len() == 0 {
            return Err(HandleError::NoBackend);
        }
        let source = pick(&reaction.backends, backend_roll);
        let (backend, endpoint) = match split_once(source.as_str(), '/') {
            Some(pair) => pair,
            None => {
                return Err(HandleError::NoEndpoint);
            },
        };
        let image_url = match self.backend_manager.get_cached(backend, endpoint) {
            Ok(url) => url,
            Err(_) => {
                return Err(HandleError::NoCachedGif);
            },
        };
        let who = audience(cmd.user, target, cmd.application);
        let (templates, missing) = match who {
            Audience::Myself => (&reaction.self_responses, HandleError::NoSelfResponse),
            Audience::Bot => (&reaction.bot_responses, HandleError::NoBotResponse),
            Audience::Other => (&reaction.default_responses, HandleError::NoDefaultResponse),
        };
        if templates.len() == 0 {
            return Err(missing);
        }
        let template = pick(templates, response_roll);
        let content = render_message(
            template.as_str(),
            cmd.user,
            target,
            backend,
            image_url.as_str(),
        );
        Ok(
            Reply {
                content,
                image_url,
                backend: String::from_str(backend),
                endpoint: String::from_str(endpoint),
            },
        )
    }

    /// Answers `cmd`, rolling the two numbers itself. The reply is the one
    /// that [`ReactionModule::respond`] gives for the numbers rolled.
    pub fn handle(&self, cmd: &Invocation) -> (r: Result<Reply, HandleError>)
        ensures
            exists|backend_roll: usize, response_roll: usize|
                reply_view(r) == #[trigger] response(
                    self.reactions(),
                    self.manager()@,
                    cmd@,
                    backend_roll,
                    response_roll,
                ),
    {
        let backend_roll = random_usize();
        let response_roll = random_usize();
        self.respond(cmd, backend_roll, response_roll)
    }

    /// The first reaction called `name`.
    fn find(&self, name: &str) -> (r: Option<&Reaction>)
        ensures
            match r {
                Some(reaction) => reaction_named(self.reactions(), name@) == Some(reaction@),
                None => reaction_named(self.reactions(), name@) is None,
            },
    {
        let wanted = String::from_str(name);
        let mut i: usize = 0;
        while i < self.reactions.len()
            invariant
                i <= self.reactions@.len(),
                wanted@ == name@,
                forall|j: int| 0 <= j < i ==> (#[trigger] self.reactions@[j]).name@ != name@,
            decreases self.reactions@.len() - i,
        {
            if self.reactions[i].name == wanted {
                proof {
                    assert(is_first_named(self.reactions(), name@, i as int));
                }
                return Some(&self.reactions[i]);
            }
            i += 1;
        }
        None
    }
}

} // verus!
