//! The question sent to the generation model: instructions, the retrieved
//! context and the user's question, laid out as one prompt.
use vstd::prelude::*;
use crate::retrieval::{prompt_block, ResultChunk};
use crate::text::string_views;

verus! {

/// A question for the generation model whose answer follows a fixed schema.
#[derive(Debug, Clone)]
pub struct StructuredQuestion {
    pub system_prompt: String,
    pub question: String,
    pub context: Vec<String>,
    pub model: String,
}

/// The shape the model's answer must take: the answer, and questions the user
/// may ask next.
#[derive(Debug, Clone)]
pub struct TestFormat {
    pub resp: String,
    pub questions: Vec<String>,
}

/// The pieces of `ls` joined by newlines.
pub open spec fn join_lines(ls: Seq<Seq<char>>) -> Seq<char>
    decreases ls.len(),
{
    if ls.len() == 0 {
        Seq::empty()
    } else if ls.len() == 1 {
        ls[0]
    } else {
        join_lines(ls.drop_last()) + "\n"@ + ls.last()
    }
}

/// The full prompt: instructions, question and context, one per line.
pub open spec fn prompt_of(q: StructuredQuestion) -> Seq<char> {
    q.system_prompt@ + "\n"@ + q.question@ + "\n"@ + join_lines(string_views(q.context@))
}

/// The question text built from the context blocks and the user's question.
pub open spec fn question_text(blocks: Seq<Seq<char>>, prompt: Seq<char>) -> Seq<char> {
    join_lines(blocks) + "\nQuestion:\n"@ + prompt + "\n"@
}

/// `b` presents result `c` in a prompt.
pub open spec fn is_block_of(c: ResultChunk, b: Seq<char>) -> bool {
    exists|link: Option<Seq<char>>| b == prompt_block(c.doc_summary@, link, c.content@)
}

/// The instructions given with every answer built from retrieved context.
pub const ANSWER_INSTRUCTIONS: &'static str = "You are an assistant who is helping students find information about University of Primorska. Your name is Urška. Given a question, help navigate through the files and the information. You are allowed to read some of the documents. Please answer in markdown format. When applicable add links. The uni website is at https://www.famnit.upr.si ";

/// The instructions a question starts with.
pub const DEFAULT_INSTRUCTIONS: &'static str = "You are a helpful assistant. Answer users question based on provided context.";

/// The model a question is put to unless another is set.
pub const DEFAULT_MODEL: &'static str = "phi4";

/// The lines of `ls` joined by newlines.
pub fn join_with_newlines(ls: &Vec<String>) -> (r: String)
    ensures
        r@ == join_lines(string_views(ls@)),
{
    let mut r = String::new();
    let mut i: usize = 0;
    while i < ls.len()
        invariant
            i <= ls@.len(),
            r@ == join_lines(string_views(ls@).take(i as int)),
        decreases ls.len() - i,
    {
        let ghost r0 = r@;
        let ghost t = string_views(ls@).take(i + 1);
        assert(t.drop_last() =~= string_views(ls@).take(i as int));
        assert(t.last() == ls@[i as int]@);
        if i > 0 {
            r.append("\n");
        }
        r.append(ls[i].as_str());
        if i == 0 {
            assert(r@ =~= t[0]);
        } else {
            assert(r@ =~= r0 + "\n"@ + t.last());
        }
        i = i + 1;
    }
    assert(string_views(ls@).take(ls.len() as int) =~= string_views(ls@));
    r
}

impl StructuredQuestion {
    /// A question with the default instructions and model and no context.
    pub fn from_question(question: String) -> (r: StructuredQuestion)
        ensures
            r.system_prompt@ == DEFAULT_INSTRUCTIONS@,
            r.question == question,
            r.context@.len() == 0,
            r.model@ == DEFAULT_MODEL@,
    {
        StructuredQuestion {
            system_prompt: String::from_str(DEFAULT_INSTRUCTIONS),
            question,
            context: Vec::new(),
            model: String::from_str(DEFAULT_MODEL),
        }
    }

    pub fn set_system_prompt(self, prompt: &str) -> (r: StructuredQuestion)
        ensures
            r.system_prompt@ == prompt@,
            r.question == self.question,
            r.context == self.context,
            r.model == self.model,
    {
        StructuredQuestion { system_prompt: String::from_str(prompt), ..self }
    }

    pub fn set_model(self, model: &str) -> (r: StructuredQuestion)
        ensures
            r.model@ == model@,
            r.system_prompt == self.system_prompt,
            r.question == self.question,
            r.context == self.context,
    {
        StructuredQuestion { model: String::from_str(model), ..self }
    }

    pub fn set_question(self, question: &str) -> (r: StructuredQuestion)
        ensures
            r.question@ == question@,
            r.system_prompt == self.system_prompt,
            r.context == self.context,
            r.model == self.model,
    {
        StructuredQuestion { question: String::from_str(question), ..self }
    }

    pub fn set_context(self, context: Vec<String>) -> (r: StructuredQuestion)
        ensures
            r.context == context,
            r.system_prompt == self.system_prompt,
            r.question == self.question,
            r.model == self.model,
    {
        StructuredQuestion { context, ..self }
    }

    /// The prompt text: instructions, question and context, one per line.
    pub fn prompt_text(&self) -> (r: String)
        ensures
            r@ == prompt_of(*self),
    {
        let mut r = self.system_prompt.clone();
        r.append("\n");
        r.append(self.question.as_str());
        r.append("\n");
        let ctx = join_with_newlines(&self.context);
        r.append(ctx.as_str());
        r
    }
}

/// The question for the model from ready context blocks and the user's question.
pub fn compose_question(prompt: &str, blocks: &Vec<String>) -> (r: StructuredQuestion)
    ensures
        r.question@ == question_text(string_views(blocks@), prompt@),
        r.system_prompt@ == ANSWER_INSTRUCTIONS@,
        r.context@.len() == 0,
        r.model@ == DEFAULT_MODEL@,
{
    let mut q = join_with_newlines(blocks);
    q.append("\nQuestion:\n");
    q.append(prompt);
    q.append("\n");
    StructuredQuestion::from_question(q).set_system_prompt(ANSWER_INSTRUCTIONS)
}

/// The question for the model: the prompt block of each retrieved result, in
/// order, then the user's question.
pub fn construct_prompt(prompt: &str, chunks: &Vec<ResultChunk>) -> (r: StructuredQuestion)
    ensures
        exists|blocks: Seq<Seq<char>>|
            {
                &&& blocks.len() == chunks@.len()
                &&& forall|i: int|
                    0 <= i < blocks.len() ==> is_block_of(chunks@[i], #[trigger] blocks[i])
                &&& r.question@ == question_text(blocks, prompt@)
            },
        r.system_prompt@ == ANSWER_INSTRUCTIONS@,
        r.context@.len() == 0,
        r.model@ == DEFAULT_MODEL@,
{
    let mut blocks: Vec<String> = Vec::new();
    let mut i: usize = 0;
    while i < chunks.len()
        invariant
            i <= chunks@.len(),
            blocks@.len() == i,
            forall|k: int| 0 <= k < i ==> is_block_of(chunks@[k], #[trigger] blocks@[k]@),
        decreases chunks.len() - i,
    {
        let b = chunks[i].to_prompt_chunk();
        blocks.push(b);
        i = i + 1;
    }
    let r = compose_question(prompt, &blocks);
    assert(forall|k: int| 0 <= k < blocks@.len() ==> string_views(blocks@)[k] == blocks@[k]@);
    r
}

} // verus!
