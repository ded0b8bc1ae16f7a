//! How the messages of a chat request in the Anthropic form become the turns
//! of a conversation: the system text, a user turn put first where the
//! assistant spoke first, the text and images of a user turn, the text and
//! thinking of an assistant turn, the pairing of a tool call with its result,
//! and what is done with each image.
use crate::adapter_error::Error;
use vstd::prelude::*;
use vstd::string::StringExecFns;

verus! {

#[derive(Debug, Clone, Copy, PartialEq, Eq, Structural)]
pub enum Role {
    User,
    Assistant,
}

/// Which images the service is configured to accept.
#[derive(Debug, Clone, Copy, PartialEq, Eq, Structural)]
pub enum VisionAbility {
    Disabled,
    Base64,
    All,
}

#[derive(Debug, Clone, Copy, PartialEq, Eq, Structural)]
pub enum MediaType {
    Png,
    Jpeg,
    Gif,
    Webp,
}

/// Where an image comes from.
#[derive(Debug)]
pub enum ImageSource {
    Base64 { media_type: MediaType, data: String },
    Url { url: String },
}

impl Clone for ImageSource {
    fn clone(&self) -> (r: ImageSource)
        ensures
            r == *self,
    {
        match self {
            ImageSource::Base64 { media_type, data } => ImageSource::Base64 {
                media_type: *media_type,
                data: data.clone(),
            },
            ImageSource::Url { url } => ImageSource::Url { url: url.clone() },
        }
    }
}

/// What is done with an image.
#[derive(Debug, Clone, Copy, PartialEq, Eq, Structural)]
pub enum ImageStep {
    /// Its base64 data is decoded.
    Decode,
    /// It is fetched from its URL.
    Fetch,
    /// The request is refused with this error.
    Refuse(Error),
}

pub open spec fn spec_image_step(ability: VisionAbility, source: ImageSource) -> ImageStep {
    match ability {
        VisionAbility::Disabled => ImageStep::Refuse(Error::VisionDisabled),
        VisionAbility::Base64 => match source {
            ImageSource::Base64 { .. } => ImageStep::Decode,
            ImageSource::Url { .. } => ImageStep::Refuse(Error::Base64Only),
        },
        VisionAbility::All => match source {
            ImageSource::Base64 { .. } => ImageStep::Decode,
            ImageSource::Url { .. } => ImageStep::Fetch,
        },
    }
}

/// What is done with an image under the configured vision ability.
pub fn image_step(ability: VisionAbility, source: &ImageSource) -> (r: ImageStep)
    ensures
        r == spec_image_step(ability, *source),
{
    match ability {
        VisionAbility::Disabled => ImageStep::Refuse(Error::VisionDisabled),
        VisionAbility::Base64 => match source {
            ImageSource::Base64 { .. } => ImageStep::Decode,
            ImageSource::Url { .. } => ImageStep::Refuse(Error::Base64Only),
        },
        VisionAbility::All => match source {
            ImageSource::Base64 { .. } => ImageStep::Decode,
            ImageSource::Url { .. } => ImageStep::Fetch,
        },
    }
}

/// A block of a message's content.  In the content of a tool result only
/// `Text` and `Image` count.
#[derive(Debug)]
pub enum Block {
    Text(String),
    Image(ImageSource),
    Thinking { thinking: String, signature: String },
    RedactedThinking(String),
    ToolUse { id: String, name: String, input: String },
    ToolResult { tool_use_id: String, content: Option<ToolResultContent>, is_error: bool },
    Other,
}

/// The content of a tool result.
#[derive(Debug)]
pub enum ToolResultContent {
    Text(String),
    Blocks(Vec<Block>),
}

/// The content of a message.
#[derive(Debug)]
pub enum Content {
    Text(String),
    Blocks(Vec<Block>),
}

#[derive(Debug)]
pub struct MessageParam {
    pub role: Role,
    pub content: Content,
}

/// The system text of a request.
#[derive(Debug)]
pub enum SystemContent {
    Text(String),
    Parts(Vec<String>),
}

/// The characters of each text.
pub open spec fn texts_of(s: Seq<String>) -> Seq<Seq<char>> {
    s.map_values(|x: String| x@)
}

/// The texts joined by line breaks.
pub open spec fn lines_joined(parts: Seq<Seq<char>>) -> Seq<char>
    decreases parts.len(),
{
    if parts.len() == 0 {
        Seq::empty()
    } else if parts.len() == 1 {
        parts[0]
    } else {
        lines_joined(parts.drop_last()) + seq!['\n'] + parts.last()
    }
}

/// Joins the texts by line breaks.
pub fn join_lines(parts: &Vec<String>) -> (r: String)
    ensures
        r@ == lines_joined(texts_of(parts@)),
{
    let mut out = String::new();
    let mut i: usize = 0;
    while i < parts.len()
        invariant
            i <= parts.len(),
            out@ == lines_joined(texts_of(parts@.subrange(0, i as int))),
        decreases parts.len() - i,
    {
        let ghost before = texts_of(parts@.subrange(0, i as int));
        let ghost after = texts_of(parts@.subrange(0, i + 1));
        if i > 0 {
            let nl = "\n";
            proof {
                reveal_strlit("\n");
            }
            out.append(nl);
        }
        out.append(parts[i].as_str());
        proof {
            assert(after.drop_last() =~= before);
            assert(after.last() == parts@[i as int]@);
            if i == 0 {
                assert(after.len() == 1);
            }
        }
        i = i + 1;
    }
    assert(parts@.subrange(0, parts.len() as int) =~= parts@);
    out
}

/// The system text: the given one, its parts joined by line breaks, or the
/// default instructions where none is given.
pub open spec fn spec_system_text(system: Option<SystemContent>, default_instructions: Seq<char>) -> Seq<char> {
    match system {
        None => default_instructions,
        Some(SystemContent::Text(t)) => t@,
        Some(SystemContent::Parts(p)) => lines_joined(texts_of(p@)),
    }
}

pub fn system_text(system: Option<SystemContent>, default_instructions: String) -> (r: String)
    ensures
        r@ == spec_system_text(system, default_instructions@),
{
    match system {
        None => default_instructions,
        Some(SystemContent::Text(t)) => t,
        Some(SystemContent::Parts(p)) => join_lines(&p),
    }
}

/// Puts an empty user message first where the first message is the
/// assistant's; leaves the messages as they are otherwise.
pub fn lead_with_user(inputs: &mut Vec<MessageParam>)
    ensures
        (old(inputs)@.len() > 0 && old(inputs)@[0].role == Role::Assistant) ==> {
            &&& final(inputs)@.len() == old(inputs)@.len() + 1
            &&& final(inputs)@[0].role == Role::User
            &&& final(inputs)@[0].content matches Content::Text(t) && t@.len() == 0
            &&& final(inputs)@.subrange(1, final(inputs)@.len() as int) == old(inputs)@
        },
        !(old(inputs)@.len() > 0 && old(inputs)@[0].role == Role::Assistant) ==> final(inputs)@
            == old(inputs)@,
{
    if inputs.len() > 0 && inputs[0].role == Role::Assistant {
        inputs.insert(0, MessageParam { role: Role::User, content: Content::Text(String::new()) });
        assert(inputs@.subrange(1, inputs@.len() as int) =~= old(inputs)@);
    }
}

/// The texts among the blocks, in order.
pub open spec fn text_parts(blocks: Seq<Block>) -> Seq<Seq<char>>
    decreases blocks.len(),
{
    if blocks.len() == 0 {
        Seq::empty()
    } else {
        let rest = text_parts(blocks.drop_last());
        match blocks.last() {
            Block::Text(t) => rest.push(t@),
            _ => rest,
        }
    }
}

/// The images among the blocks, in order.
pub open spec fn image_parts(blocks: Seq<Block>) -> Seq<ImageSource>
    decreases blocks.len(),
{
    if blocks.len() == 0 {
        Seq::empty()
    } else {
        let rest = image_parts(blocks.drop_last());
        match blocks.last() {
            Block::Image(s) => rest.push(s),
            _ => rest,
        }
    }
}

/// The text of a user turn (its text blocks joined by line breaks) and its
/// images, which are kept only where the model takes images.
pub fn user_content(blocks: &Vec<Block>, image_support: bool) -> (r: (String, Vec<ImageSource>))
    ensures
        r.0@ == lines_joined(text_parts(blocks@)),
        r.1@ == (if image_support {
            image_parts(blocks@)
        } else {
            Seq::empty()
        }),
{
    let mut texts: Vec<String> = Vec::new();
    let mut images: Vec<ImageSource> = Vec::new();
    let mut i: usize = 0;
    while i < blocks.len()
        invariant
            i <= blocks.len(),
            texts_of(texts@) == text_parts(blocks@.subrange(0, i as int)),
            images@ == (if image_support {
                image_parts(blocks@.subrange(0, i as int))
            } else {
                Seq::empty()
            }),
        decreases blocks.len() - i,
    {
        let ghost prefix = blocks@.subrange(0, i + 1);
        proof {
            assert(prefix.drop_last() =~= blocks@.subrange(0, i as int));
            assert(prefix.last() == blocks@[i as int]);
        }
        let ghost texts_before = texts@;
        match &blocks[i] {
            Block::Text(t) => {
                texts.push(t.clone());
                assert(texts_of(texts@) =~= texts_of(texts_before).push(t@));
            },
            Block::Image(s) => {
                if image_support {
                    images.push(s.clone());
                }
            },
            _ => {},
        }
        i = i + 1;
    }
    assert(blocks@.subrange(0, blocks.len() as int) =~= blocks@);
    (join_lines(&texts), images)
}

/// The text of a tool result: nothing, its text, or its text blocks joined
/// by line breaks.
pub open spec fn result_text(content: Option<ToolResultContent>) -> Seq<char> {
    match content {
        None => Seq::empty(),
        Some(ToolResultContent::Text(t)) => t@,
        Some(ToolResultContent::Blocks(b)) => lines_joined(text_parts(b@)),
    }
}

/// The images of a tool result, kept only where the model takes images.
pub open spec fn result_images(content: Option<ToolResultContent>, image_support: bool) -> Seq<
    ImageSource,
> {
    match content {
        Some(ToolResultContent::Blocks(b)) => if image_support {
            image_parts(b@)
        } else {
            Seq::empty()
        },
        _ => Seq::empty(),
    }
}

/// The text and images of a tool result.
pub fn tool_result_content(content: &Option<ToolResultContent>, image_support: bool) -> (r: (
    String,
    Vec<ImageSource>,
))
    ensures
        r.0@ == result_text(*content),
        r.1@ == result_images(*content, image_support),
{
    match content {
        None => (String::new(), Vec::new()),
        Some(ToolResultContent::Text(t)) => (t.clone(), Vec::new()),
        Some(ToolResultContent::Blocks(b)) => user_content(b, image_support),
    }
}

/// A thinking block of an assistant turn.
#[derive(Debug)]
pub struct Thinking {
    pub text: String,
    pub signature: String,
    pub redacted: String,
}

impl View for Thinking {
    type V = (Seq<char>, Seq<char>, Seq<char>);

    open spec fn view(&self) -> (Seq<char>, Seq<char>, Seq<char>) {
        (self.text@, self.signature@, self.redacted@)
    }
}

/// The thinking blocks among the blocks, in order: a thinking block keeps
/// its text and signature, a redacted one its data.
pub open spec fn thinking_parts(blocks: Seq<Block>) -> Seq<(Seq<char>, Seq<char>, Seq<char>)>
    decreases blocks.len(),
{
    if blocks.len() == 0 {
        Seq::empty()
    } else {
        let rest = thinking_parts(blocks.drop_last());
        match blocks.last() {
            Block::Thinking { thinking, signature } => rest.push(
                (thinking@, signature@, Seq::empty()),
            ),
            Block::RedactedThinking(d) => rest.push((Seq::empty(), Seq::empty(), d@)),
            _ => rest,
        }
    }
}

/// The views of the thinking blocks.
pub open spec fn thinking_views(s: Seq<Thinking>) -> Seq<(Seq<char>, Seq<char>, Seq<char>)> {
    s.map_values(|t: Thinking| t@)
}

/// The text of an assistant turn (its text blocks joined by line breaks)
/// and its thinking blocks.
pub fn assistant_content(blocks: &Vec<Block>) -> (r: (String, Vec<Thinking>))
    ensures
        r.0@ == lines_joined(text_parts(blocks@)),
        thinking_views(r.1@) == thinking_parts(blocks@),
{
    assert(blocks@.subrange(0, blocks.len() as int) =~= blocks@);
    assistant_parts(blocks, blocks.len())
}

/// `assistant_content` of the first `n` blocks.
fn assistant_parts(blocks: &Vec<Block>, n: usize) -> (r: (String, Vec<Thinking>))
    requires
        n <= blocks.len(),
    ensures
        r.0@ == lines_joined(text_parts(blocks@.subrange(0, n as int))),
        thinking_views(r.1@) == thinking_parts(blocks@.subrange(0, n as int)),
{
    let mut texts: Vec<String> = Vec::new();
    let mut thinking: Vec<Thinking> = Vec::new();
    let mut i: usize = 0;
    while i < n
        invariant
            n <= blocks.len(),
            i <= n,
            texts_of(texts@) == text_parts(blocks@.subrange(0, i as int)),
            thinking_views(thinking@) == thinking_parts(blocks@.subrange(0, i as int)),
        decreases n - i,
    {
        let ghost prefix = blocks@.subrange(0, i + 1);
        proof {
            assert(prefix.drop_last() =~= blocks@.subrange(0, i as int));
            assert(prefix.last() == blocks@[i as int]);
        }
        let ghost texts_before = texts@;
        let ghost thinking_before = thinking@;
        match &blocks[i] {
            Block::Text(t) => {
                texts.push(t.clone());
                assert(texts_of(texts@) =~= texts_of(texts_before).push(t@));
            },
            Block::Thinking { thinking: t, signature } => {
                let b = Thinking { text: t.clone(), signature: signature.clone(), redacted: String::new() };
                thinking.push(b);
                assert(thinking_views(thinking@) =~= thinking_views(thinking_before).push(b@));
            },
            Block::RedactedThinking(d) => {
                let b = Thinking { text: String::new(), signature: String::new(), redacted: d.clone() };
                thinking.push(b);
                assert(thinking_views(thinking@) =~= thinking_views(thinking_before).push(b@));
            },
            _ => {},
        }
        i = i + 1;
    }
    (join_lines(&texts), thinking)
}

/// The thinking texts one after another.
pub open spec fn thinking_text(s: Seq<(Seq<char>, Seq<char>, Seq<char>)>) -> Seq<char>
    decreases s.len(),
{
    if s.len() == 0 {
        Seq::empty()
    } else {
        thinking_text(s.drop_last()) + s.last().0
    }
}

/// The thinking of a turn, from its blocks' views: none, the only one, or
/// their texts one after another with no signature and no redacted data.
pub open spec fn merged_thinking(s: Seq<(Seq<char>, Seq<char>, Seq<char>)>) -> Option<
    (Seq<char>, Seq<char>, Seq<char>),
> {
    if s.len() == 0 {
        None
    } else if s.len() == 1 {
        Some(s[0])
    } else {
        Some((thinking_text(s), Seq::empty(), Seq::empty()))
    }
}

/// The view of an optional thinking block.
pub open spec fn thinking_opt_view(t: Option<Thinking>) -> Option<(Seq<char>, Seq<char>, Seq<char>)> {
    match t {
        Some(b) => Some(b@),
        None => None,
    }
}

/// The thinking of a turn: none, the only block, or for several blocks one
/// block whose text is their texts one after another (empty ones add
/// nothing), with no signature and no redacted data.
pub fn merge_thinking(blocks: Vec<Thinking>) -> (r: Option<Thinking>)
    ensures
        blocks.len() == 0 ==> r is None,
        blocks.len() == 1 ==> r == Some(blocks@[0]),
        thinking_opt_view(r) == merged_thinking(thinking_views(blocks@)),
{
    if blocks.len() == 0 {
        return None;
    }
    if blocks.len() == 1 {
        let mut b = blocks;
        return b.pop();
    }
    let mut text = String::new();
    let mut i: usize = 0;
    while i < blocks.len()
        invariant
            i <= blocks.len(),
            text@ == thinking_text(thinking_views(blocks@.subrange(0, i as int))),
        decreases blocks.len() - i,
    {
        proof {
            let prefix = thinking_views(blocks@.subrange(0, i + 1));
            assert(prefix.drop_last() =~= thinking_views(blocks@.subrange(0, i as int)));
            assert(prefix.last() == blocks@[i as int]@);
        }
        text.append(blocks[i].text.as_str());
        i = i + 1;
    }
    assert(blocks@.subrange(0, blocks.len() as int) =~= blocks@);
    Some(Thinking { text, signature: String::new(), redacted: String::new() })
}

/// Whether an assistant turn ending in a tool call is answered by the next
/// message: a user message whose only block is a tool result.
pub open spec fn spec_tool_pair(blocks: Seq<Block>, next: Option<MessageParam>) -> bool {
    &&& blocks.len() > 0
    &&& blocks.last() is ToolUse
    &&& next is Some
    &&& next->0.role == Role::User
    &&& next->0.content matches Content::Blocks(b) && b@.len() == 1 && b@[0] is ToolResult
}

/// Whether the tool call that ends an assistant turn is paired with the
/// tool result that the next message holds.
pub fn tool_pair(blocks: &Vec<Block>, next: Option<&MessageParam>) -> (r: bool)
    ensures
        r == spec_tool_pair(
            blocks@,
            match next {
                Some(m) => Some(*m),
                None => None,
            },
        ),
{
    if blocks.len() == 0 {
        return false;
    }
    let last_is_call = match &blocks[blocks.len() - 1] {
        Block::ToolUse { .. } => true,
        _ => false,
    };
    if !last_is_call {
        return false;
    }
    match next {
        Some(m) => match &m.content {
            Content::Blocks(b) => {
                if m.role == Role::User && b.len() == 1 {
                    match &b[0] {
                        Block::ToolResult { .. } => true,
                        _ => false,
                    }
                } else {
                    false
                }
            },
            Content::Text(_) => false,
        },
        None => false,
    }
}

/// How a turn is marked.
#[derive(Debug, Clone, Copy, PartialEq, Eq, Structural)]
pub struct TurnMarks {
    /// The turn is the user's (else the assistant's).
    pub human: bool,
    /// The turn gets a server bubble id (the assistant's turns do).
    pub server_bubble: bool,
    /// The turn is marked agentic (a user turn of an agentic request).
    pub agentic: bool,
    /// The unified mode is the agent's (else the chat's).
    pub agent_mode: bool,
}

/// How a turn of the given role is marked in a request that is agentic or
/// not.
pub open spec fn spec_turn_marks(role: Role, is_agentic: bool) -> TurnMarks {
    TurnMarks {
        human: role == Role::User,
        server_bubble: role == Role::Assistant,
        agentic: is_agentic && role == Role::User,
        agent_mode: is_agentic,
    }
}

pub fn turn_marks(role: Role, is_agentic: bool) -> (r: TurnMarks)
    ensures
        r == spec_turn_marks(role, is_agentic),
        r.human == (role == Role::User),
        r.server_bubble == (role == Role::Assistant),
        r.agentic == (is_agentic && role == Role::User),
        r.agent_mode == is_agentic,
{
    let human = role == Role::User;
    TurnMarks { human, server_bubble: !human, agentic: is_agentic && human, agent_mode: is_agentic }
}

/// A turn of the conversation.
#[derive(Debug)]
pub enum Turn {
    /// A message of the user or of the assistant, with the images still to
    /// be read and its thinking.
    Message {
        marks: TurnMarks,
        text: String,
        images: Vec<ImageSource>,
        thinking: Option<Thinking>,
    },
    /// A tool call of the assistant together with its result.
    ToolExchange {
        agent_mode: bool,
        call_id: String,
        name: String,
        input: String,
        result_id: String,
        result_text: String,
        result_images: Vec<ImageSource>,
        is_error: bool,
    },
}

/// A turn as values.
pub enum TurnView {
    Message {
        marks: TurnMarks,
        text: Seq<char>,
        images: Seq<ImageSource>,
        thinking: Option<(Seq<char>, Seq<char>, Seq<char>)>,
    },
    ToolExchange {
        agent_mode: bool,
        call_id: Seq<char>,
        name: Seq<char>,
        input: Seq<char>,
        result_id: Seq<char>,
        result_text: Seq<char>,
        result_images: Seq<ImageSource>,
        is_error: bool,
    },
}

impl View for Turn {
    type V = TurnView;

    open spec fn view(&self) -> TurnView {
        match self {
            Turn::Message { marks, text, images, thinking } => TurnView::Message {
                marks: *marks,
                text: text@,
                images: images@,
                thinking: thinking_opt_view(*thinking),
            },
            Turn::ToolExchange {
                agent_mode,
                call_id,
                name,
                input,
                result_id,
                result_text,
                result_images,
                is_error,
            } => TurnView::ToolExchange {
                agent_mode: *agent_mode,
                call_id: call_id@,
                name: name@,
                input: input@,
                result_id: result_id@,
                result_text: result_text@,
                result_images: result_images@,
                is_error: *is_error,
            },
        }
    }
}

pub open spec fn turns_view(s: Seq<Turn>) -> Seq<TurnView> {
    s.map_values(|t: Turn| t@)
}

/// The turn of an assistant message made of these blocks.
pub open spec fn assistant_turn(blocks: Seq<Block>, is_agentic: bool) -> TurnView {
    TurnView::Message {
        marks: spec_turn_marks(Role::Assistant, is_agentic),
        text: lines_joined(text_parts(blocks)),
        images: Seq::empty(),
        thinking: merged_thinking(thinking_parts(blocks)),
    }
}

/// The turn of a message on its own.
pub open spec fn single_turn(m: MessageParam, image_support: bool, is_agentic: bool) -> TurnView {
    match m.content {
        Content::Text(t) => TurnView::Message {
            marks: spec_turn_marks(m.role, is_agentic),
            text: t@,
            images: Seq::empty(),
            thinking: None,
        },
        Content::Blocks(b) => if m.role == Role::User {
            TurnView::Message {
                marks: spec_turn_marks(Role::User, is_agentic),
                text: lines_joined(text_parts(b@)),
                images: if image_support {
                    image_parts(b@)
                } else {
                    Seq::empty()
                },
                thinking: None,
            }
        } else {
            assistant_turn(b@, is_agentic)
        },
    }
}

/// The exchange made of a tool call and the block of its result.
pub open spec fn exchange_turn(
    call: Block,
    result: Block,
    image_support: bool,
    is_agentic: bool,
) -> TurnView {
    match call {
        Block::ToolUse { id, name, input } => match result {
            Block::ToolResult { tool_use_id, content, is_error } => TurnView::ToolExchange {
                agent_mode: is_agentic,
                call_id: id@,
                name: name@,
                input: input@,
                result_id: tool_use_id@,
                result_text: result_text(content),
                result_images: result_images(content, image_support),
                is_error,
            },
            _ => arbitrary(),
        },
        _ => arbitrary(),
    }
}

/// The message after the one at `i`, if any.
pub open spec fn next_message(msgs: Seq<MessageParam>, i: int) -> Option<MessageParam> {
    if i + 1 < msgs.len() {
        Some(msgs[i + 1])
    } else {
        None
    }
}

/// Whether the message at `i` is an assistant's whose last block is a tool
/// call that the next message answers.
pub open spec fn pairs_at(msgs: Seq<MessageParam>, i: int) -> bool {
    &&& msgs[i].role == Role::Assistant
    &&& msgs[i].content matches Content::Blocks(b) && spec_tool_pair(b@, next_message(msgs, i))
}

/// The turns of the messages from `i` on: an assistant message whose tool
/// call the next message answers gives its own turn (without the call) and
/// the exchange, and takes the answer with it; any other message gives one
/// turn.
pub open spec fn turns_from(
    msgs: Seq<MessageParam>,
    i: int,
    image_support: bool,
    is_agentic: bool,
) -> Seq<TurnView>
    decreases msgs.len() - i,
{
    if i < 0 || i >= msgs.len() {
        Seq::empty()
    } else if pairs_at(msgs, i) {
        let b = msgs[i].content->Blocks_0@;
        let answer = msgs[i + 1].content->Blocks_0@[0];
        seq![
            assistant_turn(b.drop_last(), is_agentic),
            exchange_turn(b.last(), answer, image_support, is_agentic),
        ] + turns_from(msgs, i + 2, image_support, is_agentic)
    } else {
        seq![single_turn(msgs[i], image_support, is_agentic)] + turns_from(
            msgs,
            i + 1,
            image_support,
            is_agentic,
        )
    }
}

/// The turn of an assistant message made of its first `n` blocks.
fn assistant_turn_of(blocks: &Vec<Block>, n: usize, is_agentic: bool) -> (r: Turn)
    requires
        n <= blocks.len(),
    ensures
        r@ == assistant_turn(blocks@.subrange(0, n as int), is_agentic),
{
    let (text, thinking) = assistant_parts(blocks, n);
    let merged = merge_thinking(thinking);
    Turn::Message {
        marks: turn_marks(Role::Assistant, is_agentic),
        text,
        images: Vec::new(),
        thinking: merged,
    }
}

/// The turn of a message on its own.
fn single_turn_of(m: &MessageParam, image_support: bool, is_agentic: bool) -> (r: Turn)
    ensures
        r@ == single_turn(*m, image_support, is_agentic),
{
    match &m.content {
        Content::Text(t) => Turn::Message {
            marks: turn_marks(m.role, is_agentic),
            text: t.clone(),
            images: Vec::new(),
            thinking: None,
        },
        Content::Blocks(b) => {
            if m.role == Role::User {
                let (text, images) = user_content(b, image_support);
                Turn::Message { marks: turn_marks(Role::User, is_agentic), text, images, thinking: None }
            } else {
                assert(b@.subrange(0, b.len() as int) =~= b@);
                assistant_turn_of(b, b.len(), is_agentic)
            }
        },
    }
}

/// The exchange made of a tool call and the block of its result.
fn exchange_turn_of(call: &Block, result: &Block, image_support: bool, is_agentic: bool) -> (r: Turn)
    requires
        call is ToolUse,
        result is ToolResult,
    ensures
        r@ == exchange_turn(*call, *result, image_support, is_agentic),
{
    match call {
        Block::ToolUse { id, name, input } => match result {
            Block::ToolResult { tool_use_id, content, is_error } => {
                let (result_text, result_images) = tool_result_content(content, image_support);
                Turn::ToolExchange {
                    agent_mode: is_agentic,
                    call_id: id.clone(),
                    name: name.clone(),
                    input: input.clone(),
                    result_id: tool_use_id.clone(),
                    result_text,
                    result_images,
                    is_error: *is_error,
                }
            },
            _ => {
                proof {
                    assert(false);
                }
                Turn::Message { marks: turn_marks(Role::User, false), text: String::new(), images: Vec::new(), thinking: None }
            },
        },
        _ => {
            proof {
                assert(false);
            }
            Turn::Message { marks: turn_marks(Role::User, false), text: String::new(), images: Vec::new(), thinking: None }
        },
    }
}

/// The turns of the messages, in order.
pub fn convert_messages(inputs: &Vec<MessageParam>, image_support: bool, is_agentic: bool) -> (r:
    Vec<Turn>)
    ensures
        turns_view(r@) == turns_from(inputs@, 0, image_support, is_agentic),
{
    let mut out: Vec<Turn> = Vec::new();
    let mut i: usize = 0;
    while i < inputs.len()
        invariant
            i <= inputs.len(),
            turns_view(out@) + turns_from(inputs@, i as int, image_support, is_agentic)
                == turns_from(inputs@, 0, image_support, is_agentic),
        decreases inputs.len() - i,
    {
        let ghost before = turns_view(out@);
        let ghost rest = turns_from(inputs@, i as int, image_support, is_agentic);
        let m = &inputs[i];
        let next = if i + 1 < inputs.len() {
            Some(&inputs[i + 1])
        } else {
            None
        };
        let mut paired = false;
        if m.role == Role::Assistant {
            match &m.content {
                Content::Blocks(b) => {
                    paired = tool_pair(b, next);
                },
                Content::Text(_) => {},
            }
        }
        proof {
            assert(next_message(inputs@, i as int) == match next {
                Some(x) => Some(*x),
                None => None::<MessageParam>,
            });
        }
        if paired {
            match &m.content {
                Content::Blocks(b) => {
                    let n = b.len() - 1;
                    let t2 = assistant_turn_of(b, n, is_agentic);
                    let answer = &inputs[i + 1];
                    let x = match &answer.content {
                        Content::Blocks(ab) => exchange_turn_of(&b[n], &ab[0], image_support, is_agentic),
                        Content::Text(_) => {
                            proof {
                                assert(false);
                            }
                            assistant_turn_of(b, n, is_agentic)
                        },
                    };
                    out.push(t2);
                    out.push(x);
                    proof {
                        assert(b@.subrange(0, n as int) =~= b@.drop_last());
                        assert(turns_view(out@) =~= before + seq![t2@, x@]);
                        assert(rest == seq![t2@, x@] + turns_from(inputs@, i + 2, image_support, is_agentic));
                        assert(before + rest =~= turns_view(out@) + turns_from(inputs@, i + 2, image_support, is_agentic));
                    }
                    i = i + 2;
                },
                Content::Text(_) => {
                    proof {
                        assert(false);
                    }
                },
            }
        } else {
            let t = single_turn_of(m, image_support, is_agentic);
            out.push(t);
            proof {
                assert(turns_view(out@) =~= before.push(t@));
                assert(rest == seq![t@] + turns_from(inputs@, i + 1, image_support, is_agentic));
                assert(before + rest =~= turns_view(out@) + turns_from(inputs@, i + 1, image_support, is_agentic));
            }
            i = i + 1;
        }
    }
    proof {
        assert(turns_from(inputs@, i as int, image_support, is_agentic) =~= Seq::<TurnView>::empty());
        assert(turns_view(out@) + Seq::<TurnView>::empty() =~= turns_view(out@));
    }
    out
}

/// The turn of an empty user message in a request that is `is_agentic` or
/// not.
pub open spec fn empty_user_turn(is_agentic: bool) -> TurnView {
    TurnView::Message {
        marks: spec_turn_marks(Role::User, is_agentic),
        text: Seq::empty(),
        images: Seq::empty(),
        thinking: None,
    }
}

/// The turns of a conversation: one empty user turn, in chat mode, where
/// there is no message; else an empty user turn first where the assistant
/// spoke first, then the turns of the messages.
pub open spec fn conversation(
    msgs: Seq<MessageParam>,
    image_support: bool,
    is_agentic: bool,
) -> Seq<TurnView> {
    if msgs.len() == 0 {
        seq![empty_user_turn(false)]
    } else if msgs[0].role == Role::Assistant {
        seq![empty_user_turn(is_agentic)] + turns_from(msgs, 0, image_support, is_agentic)
    } else {
        turns_from(msgs, 0, image_support, is_agentic)
    }
}

/// One message more in front shifts the turns by one place.
proof fn lemma_turns_shift(
    a: Seq<MessageParam>,
    x: MessageParam,
    i: int,
    image_support: bool,
    is_agentic: bool,
)
    requires
        0 <= i,
    ensures
        turns_from(seq![x] + a, i + 1, image_support, is_agentic) == turns_from(
            a,
            i,
            image_support,
            is_agentic,
        ),
    decreases a.len() - i,
{
    let s = seq![x] + a;
    if i < a.len() {
        assert(s[i + 1] == a[i]);
        if i + 1 < a.len() {
            assert(s[i + 2] == a[i + 1]);
        }
        assert(next_message(s, i + 1) == next_message(a, i));
        lemma_turns_shift(a, x, i + 1, image_support, is_agentic);
        if i + 1 < a.len() {
            lemma_turns_shift(a, x, i + 2, image_support, is_agentic);
        }
    }
}

/// The turns of a conversation.
pub fn conversation_turns(inputs: Vec<MessageParam>, image_support: bool, is_agentic: bool) -> (r:
    Vec<Turn>)
    ensures
        turns_view(r@) == conversation(inputs@, image_support, is_agentic),
{
    if inputs.len() == 0 {
        let t = Turn::Message {
            marks: turn_marks(Role::User, false),
            text: String::new(),
            images: Vec::new(),
            thinking: None,
        };
        let out = vec![t];
        assert(turns_view(out@) =~= seq![empty_user_turn(false)]);
        return out;
    }
    let mut msgs = inputs;
    let ghost given = msgs@;
    lead_with_user(&mut msgs);
    let out = convert_messages(&msgs, image_support, is_agentic);
    proof {
        if given[0].role == Role::Assistant {
            assert(msgs@ =~= seq![msgs@[0]] + given);
            assert(!pairs_at(msgs@, 0));
            assert(msgs@[0].content->Text_0@ =~= Seq::<char>::empty());
            assert(single_turn(msgs@[0], image_support, is_agentic) == empty_user_turn(is_agentic));
            lemma_turns_shift(given, msgs@[0], 0, image_support, is_agentic);
        }
    }
    out
}

/// A conversation always has a turn, and its first turn is the user's.
pub proof fn lemma_conversation_starts_with_user(
    msgs: Seq<MessageParam>,
    image_support: bool,
    is_agentic: bool,
)
    ensures
        conversation(msgs, image_support, is_agentic).len() >= 1,
        conversation(msgs, image_support, is_agentic)[0] matches TurnView::Message { marks, .. }
            && marks.human,
{
    if msgs.len() > 0 && msgs[0].role != Role::Assistant {
        assert(!pairs_at(msgs, 0));
    }
}

/// The turns of messages are as many as the messages: an answered tool
/// call's answer becomes the exchange that follows the call's turn.
pub proof fn lemma_one_turn_per_message(
    msgs: Seq<MessageParam>,
    i: int,
    image_support: bool,
    is_agentic: bool,
)
    requires
        0 <= i <= msgs.len(),
    ensures
        turns_from(msgs, i, image_support, is_agentic).len() == msgs.len() - i,
    decreases msgs.len() - i,
{
    if i < msgs.len() {
        if pairs_at(msgs, i) {
            lemma_one_turn_per_message(msgs, i + 2, image_support, is_agentic);
        } else {
            lemma_one_turn_per_message(msgs, i + 1, image_support, is_agentic);
        }
    }
}

/// The images a turn carries.
pub open spec fn turn_images(t: TurnView) -> Seq<ImageSource> {
    match t {
        TurnView::Message { images, .. } => images,
        TurnView::ToolExchange { result_images, .. } => result_images,
    }
}

/// A tool result keeps no image where the model takes none.
pub proof fn lemma_no_result_images_without_support(content: Option<ToolResultContent>)
    ensures
        result_images(content, false).len() == 0,
{
}

proof fn lemma_no_images_from(msgs: Seq<MessageParam>, i: int, is_agentic: bool)
    requires
        0 <= i,
    ensures
        forall|k: int|
            0 <= k < turns_from(msgs, i, false, is_agentic).len() ==> #[trigger] turn_images(
                turns_from(msgs, i, false, is_agentic)[k],
            ).len() == 0,
    decreases msgs.len() - i,
{
    if i < msgs.len() {
        let t = turns_from(msgs, i, false, is_agentic);
        if pairs_at(msgs, i) {
            lemma_no_images_from(msgs, i + 2, is_agentic);
            let b = msgs[i].content->Blocks_0@;
            let answer = msgs[i + 1].content->Blocks_0@[0];
            let rest = turns_from(msgs, i + 2, false, is_agentic);
            assert forall|k: int| 0 <= k < t.len() implies #[trigger] turn_images(t[k]).len()
                == 0 by {
                if k >= 2 {
                    assert(t[k] == rest[k - 2]);
                } else if k == 1 {
                    match b.last() {
                        Block::ToolUse { .. } => match answer {
                            Block::ToolResult { content, .. } => {
                                lemma_no_result_images_without_support(content);
                            },
                            _ => {},
                        },
                        _ => {},
                    }
                }
            }
        } else {
            lemma_no_images_from(msgs, i + 1, is_agentic);
            let rest = turns_from(msgs, i + 1, false, is_agentic);
            assert forall|k: int| 0 <= k < t.len() implies #[trigger] turn_images(t[k]).len()
                == 0 by {
                if k >= 1 {
                    assert(t[k] == rest[k - 1]);
                }
            }
        }
    }
}

/// Where the model takes no images, no turn of a conversation carries an
/// image: neither a message nor the result of a tool call.
pub proof fn lemma_no_images_without_support(msgs: Seq<MessageParam>, is_agentic: bool)
    ensures
        forall|k: int|
            0 <= k < conversation(msgs, false, is_agentic).len() ==> #[trigger] turn_images(
                conversation(msgs, false, is_agentic)[k],
            ).len() == 0,
{
    lemma_no_images_from(msgs, 0, is_agentic);
    let c = conversation(msgs, false, is_agentic);
    if msgs.len() > 0 && msgs[0].role == Role::Assistant {
        let rest = turns_from(msgs, 0, false, is_agentic);
        assert forall|k: int| 0 <= k < c.len() implies #[trigger] turn_images(c[k]).len() == 0 by {
            if k >= 1 {
                assert(c[k] == rest[k - 1]);
            }
        }
    }
}

} // verus!
