//! Turning a session's observations into page text.
//!
//! The rule renderer is the floor that always exists; a language model may rewrite the
//! body. Whether a chain has already been compiled is answered by a fingerprint of the
//! chain that the page carries, never by comparing bodies: a model words the same page
//! differently every time.

use vstd::prelude::*;

use crate::json::{first_element, member, Json};
use crate::numbers::{decimal, decimal_text, signed, signed_text};
use crate::store::records::{observations_view, Observation, ObservationView};
use crate::text::{
    chars_of, find_part, has_part, lemma_part_from, opt_text, part_from, stands_at, text_of,
};
use crate::trim::{trim, trimmed, without_end, CharClass};

verus! {

/// Start of the mark that carries the fingerprint inside the page.
pub const FINGERPRINT_PREFIX: &'static str = "<!-- qm:compiled ";

// ---- Fingerprints ------------------------------------------------------------------------------

/// What the fingerprint of a chain is taken of: the ids of the observations in order,
/// each on a line of its own.
pub open spec fn material(list: Seq<ObservationView>) -> Seq<char>
    decreases list.len(),
{
    if list.len() == 0 {
        Seq::empty()
    } else {
        (material(list.drop_last()) + list.last().observation_id).push('\n')
    }
}

/// What the fingerprint of a chain is taken of.
pub fn chain_material(observations: &Vec<Observation>) -> (text: String)
    ensures
        text@ == material(observations_view(observations@)),
{
    let ghost list = observations_view(observations@);
    let mut text: String = String::new();
    let mut i: usize = 0;
    assert(list.take(0) =~= Seq::empty());
    while i < observations.len()
        invariant
            list == observations_view(observations@),
            i <= observations@.len(),
            text@ == material(list.take(i as int)),
        decreases observations@.len() - i,
    {
        assert(list.take(i + 1).drop_last() =~= list.take(i as int));
        text.append(observations[i].observation_id.as_str());
        text.push('\n');
        i += 1;
    }
    assert(list.take(i as int) =~= list);
    text
}

/// The fingerprint that a page was compiled from, when it carries one.
pub open spec fn fingerprint_in(body: Seq<char>) -> Option<Seq<char>> {
    match part_from(body, FINGERPRINT_PREFIX@, 0) {
        Some(at) => {
            let start = at + FINGERPRINT_PREFIX@.len();
            match part_from(body, " -->"@, start) {
                Some(end) => Some(trimmed(body.subrange(start, end), CharClass::Space)),
                None => None,
            }
        },
        None => None,
    }
}

/// Reads the fingerprint that a page was compiled from.
pub fn fingerprint_of(body: &str) -> (fingerprint: Option<String>)
    ensures
        opt_text(fingerprint) == fingerprint_in(body@),
{
    let chars: Vec<char> = chars_of(body);
    let count: usize = chars.len();
    match find_part(&chars, FINGERPRINT_PREFIX, 0) {
        Some(at) => {
            let start: usize = at + chars_of(FINGERPRINT_PREFIX).len();
            match find_part(&chars, " -->", start) {
                Some(end) => {
                    let inner: String = text_of(&chars, start, end);
                    Some(trim(inner.as_str(), CharClass::Space))
                },
                None => None,
            }
        },
        None => None,
    }
}

/// A compiled page: a heading, the mark with the fingerprint, and the body.
pub open spec fn marked_page(session: Seq<char>, fingerprint: Seq<char>, body: Seq<char>) -> Seq<
    char,
> {
    "# Session "@ + session + "\n\n"@ + FINGERPRINT_PREFIX@ + fingerprint + " -->\n\n"@ + trimmed(
        body,
        CharClass::Space,
    ) + "\n"@
}

/// Wraps compiled text with the fingerprint that produced it.
pub fn with_fingerprint(session: &str, fingerprint: &str, body: &str) -> (page: String)
    ensures
        page@ == marked_page(session@, fingerprint@, body@),
{
    let mut page: String = "# Session ".to_owned();
    page.append(session);
    page.append("\n\n");
    page.append(FINGERPRINT_PREFIX);
    page.append(fingerprint);
    page.append(" -->\n\n");
    page.append(trim(body, CharClass::Space).as_str());
    page.append("\n");
    page
}

// ---- Rendering ---------------------------------------------------------------------------------

/// The line of one observation.
pub open spec fn rule_line(o: ObservationView) -> Seq<char> {
    "- ["@ + signed(o.created_at_ms as int) + "] "@ + o.kind + " ("@ + o.actor + ") "@ + o.text
        + "\n"@
}

/// What the rules make of a chain: a line for each observation.
pub open spec fn rule_body(list: Seq<ObservationView>) -> Seq<char>
    decreases list.len(),
{
    if list.len() == 0 {
        Seq::empty()
    } else {
        rule_body(list.drop_last()) + rule_line(list.last())
    }
}

/// The deterministic renderer: always available, never fails.
#[derive(Debug, Clone, Copy, Default)]
pub struct RuleCompiler;

impl RuleCompiler {
    /// Short name that is recorded in the outcome.
    pub fn name(&self) -> (name: &'static str)
        ensures
            name@ == "rules"@,
    {
        "rules"
    }

    /// The body of the page for a chain.
    pub fn compile(&self, observations: &Vec<Observation>) -> (body: String)
        ensures
            body@ == rule_body(observations_view(observations@)),
    {
        let ghost list = observations_view(observations@);
        let mut body: String = String::new();
        let mut i: usize = 0;
        assert(list.take(0) =~= Seq::empty());
        while i < observations.len()
            invariant
                list == observations_view(observations@),
                i <= observations@.len(),
                body@ == rule_body(list.take(i as int)),
            decreases observations@.len() - i,
        {
            assert(list.take(i + 1).drop_last() =~= list.take(i as int));
            let o: &Observation = &observations[i];
            let mut line: String = "- [".to_owned();
            line.append(signed_text(o.created_at_ms).as_str());
            line.append("] ");
            line.append(o.kind.as_str());
            line.append(" (");
            line.append(o.actor.as_str());
            line.append(") ");
            line.append(o.text.as_str());
            line.append("\n");
            body.append(line.as_str());
            i += 1;
        }
        assert(list.take(i as int) =~= list);
        body
    }
}

/// The lines of a rendered session.
pub open spec fn page_lines(list: Seq<ObservationView>) -> Seq<char>
    decreases list.len(),
{
    if list.len() == 0 {
        Seq::empty()
    } else {
        page_lines(list.drop_last()) + ("\n- ["@ + signed(list.last().created_at_ms as int) + "] "@
            + list.last().kind + " ("@ + list.last().actor + ") "@ + list.last().text)
    }
}

/// A session rendered as a page of its own.
pub open spec fn session_page(session: Seq<char>, list: Seq<ObservationView>) -> Seq<char> {
    ("# Session "@ + session + "\n\nCompiled from "@ + decimal(list.len()) + " observation"@ + (
    if list.len() == 1 {
        ""@
    } else {
        "s"@
    }) + ".\n"@ + page_lines(list)).push('\n')
}

/// Renders a session's observations as markdown, without any compiler: the shape of a
/// compiled page must be reproducible without a model.
pub fn render_session_page(session_id: &str, observations: &Vec<Observation>) -> (page: String)
    ensures
        page@ == session_page(session_id@, observations_view(observations@)),
{
    let ghost list = observations_view(observations@);
    let mut page: String = "# Session ".to_owned();
    page.append(session_id);
    page.append("\n\nCompiled from ");
    page.append(decimal_text(observations.len() as u64).as_str());
    page.append(" observation");
    page.append(
        if observations.len() == 1 {
            ""
        } else {
            "s"
        },
    );
    page.append(".\n");
    let ghost head = page@;
    let mut i: usize = 0;
    assert(list.take(0) =~= Seq::empty());
    assert(head + page_lines(list.take(0)) =~= head);
    while i < observations.len()
        invariant
            list == observations_view(observations@),
            i <= observations@.len(),
            page@ == head + page_lines(list.take(i as int)),
        decreases observations@.len() - i,
    {
        assert(list.take(i + 1).drop_last() =~= list.take(i as int));
        let o: &Observation = &observations[i];
        let mut line: String = "\n- [".to_owned();
        line.append(signed_text(o.created_at_ms).as_str());
        line.append("] ");
        line.append(o.kind.as_str());
        line.append(" (");
        line.append(o.actor.as_str());
        line.append(") ");
        line.append(o.text.as_str());
        page.append(line.as_str());
        assert(page@ =~= head + (page_lines(list.take(i as int)) + line@));
        i += 1;
    }
    assert(list.take(i as int) =~= list);
    page.push('\n');
    page
}

// ---- The model ---------------------------------------------------------------------------------

/// Instruction given to the model. It is kept tight: the renderer, not the model,
/// decides the shape of the page.
pub const COMPILER_SYSTEM_PROMPT: &'static str =
    "You compile an agent session into one durable memory page. Return markdown only, no preamble. Keep decisions, gotchas, file paths, commands and open questions; drop small talk and repeated noise. Never invent facts that are not in the observations. Be concise.";

/// What the model is asked to compile.
pub open spec fn prompt_text(list: Seq<ObservationView>) -> Seq<char>
    decreases list.len(),
{
    if list.len() == 0 {
        "Compile these session observations into one page:\n\n"@
    } else {
        prompt_text(list.drop_last()) + ("["@ + signed(list.last().created_at_ms as int) + "] "@
            + list.last().kind + " ("@ + list.last().actor + "): "@ + list.last().text + "\n"@)
    }
}

/// How to reach a model with an OpenAI-compatible chat endpoint.
#[derive(Debug)]
pub struct OpenAiCompatCompiler {
    /// Address of the endpoint, without slashes at its end.
    pub base_url: String,
    /// Key that is sent along.
    pub api_key: String,
    /// Model that is asked.
    pub model: String,
}

/// Whether a text is nothing but white space.
pub open spec fn blank(text: Seq<char>) -> bool {
    trimmed(text, CharClass::Space).len() == 0
}

/// Whether a text is nothing but white space.
pub fn is_blank(text: &str) -> (found: bool)
    ensures
        found == blank(text@),
{
    trim(text, CharClass::Space).as_str().is_empty()
}

/// The settings of a compiler, when all three are given.
pub open spec fn settings_of(base_url: Seq<char>, api_key: Seq<char>, model: Seq<char>) -> Result<
    (Seq<char>, Seq<char>, Seq<char>),
    Seq<char>,
> {
    if blank(base_url) || blank(api_key) || blank(model) {
        Err("llm compiler needs a base url, an api key and a model"@)
    } else {
        Ok((without_end(base_url, CharClass::Char('/')), api_key, model))
    }
}

/// What a made compiler says.
pub open spec fn compiler_view(made: Result<OpenAiCompatCompiler, String>) -> Result<
    (Seq<char>, Seq<char>, Seq<char>),
    Seq<char>,
> {
    match made {
        Ok(c) => Ok((c.base_url@, c.api_key@, c.model@)),
        Err(why) => Err(why@),
    }
}

/// `text` without the slashes at its end.
pub fn without_slashes(text: &str) -> (left: String)
    ensures
        left@ == without_end(text@, CharClass::Char('/')),
{
    let chars: Vec<char> = chars_of(text);
    let mut to: usize = chars.len();
    assert(chars@.take(to as int) =~= text@);
    while to > 0 && chars[to - 1] == '/'
        invariant
            to <= chars@.len(),
            without_end(chars@.take(to as int), CharClass::Char('/')) == without_end(
                text@,
                CharClass::Char('/'),
            ),
        decreases to,
    {
        assert(chars@.take(to as int).drop_last() =~= chars@.take(to - 1));
        to -= 1;
    }
    let left: String = text_of(&chars, 0, to);
    assert(left@ =~= chars@.take(to as int));
    left
}

impl OpenAiCompatCompiler {
    /// Short name that is recorded in the outcome.
    pub fn name(&self) -> (name: &'static str)
        ensures
            name@ == "llm"@,
    {
        "llm"
    }

    /// A compiler for an endpoint. None of the three settings may be blank.
    pub fn new(base_url: &str, api_key: &str, model: &str) -> (made: Result<Self, String>)
        ensures
            compiler_view(made) == settings_of(base_url@, api_key@, model@),
    {
        if is_blank(base_url) || is_blank(api_key) || is_blank(model) {
            return Err("llm compiler needs a base url, an api key and a model".to_owned());
        }
        Ok(
            OpenAiCompatCompiler {
                base_url: without_slashes(base_url),
                api_key: api_key.to_owned(),
                model: model.to_owned(),
            },
        )
    }

    /// The compiler that three environment variables describe, given their values:
    /// none where no endpoint is set, an error where the rest is missing.
    pub fn from_env(
        base_url: &Option<String>,
        api_key: &Option<String>,
        model: &Option<String>,
    ) -> (made: Result<Option<Self>, String>)
        ensures
            match (*base_url, *api_key, *model) {
                (Some(url), Some(key), Some(name)) => if blank(url@) {
                    made == Ok::<Option<Self>, String>(None)
                } else {
                    match made {
                        Ok(Some(c)) => settings_of(url@, key@, name@) == Ok::<
                            (Seq<char>, Seq<char>, Seq<char>),
                            Seq<char>,
                        >((c.base_url@, c.api_key@, c.model@)),
                        Ok(None) => false,
                        Err(why) => settings_of(url@, key@, name@) == Err::<
                            (Seq<char>, Seq<char>, Seq<char>),
                            Seq<char>,
                        >(why@),
                    }
                },
                (Some(url), None, _) => if blank(url@) {
                    made == Ok::<Option<Self>, String>(None)
                } else {
                    made matches Err(why) && why@
                        == "QM_LLM_BASE_URL is set but QM_LLM_API_KEY is not"@
                },
                (Some(url), Some(_), None) => if blank(url@) {
                    made == Ok::<Option<Self>, String>(None)
                } else {
                    made matches Err(why) && why@
                        == "QM_LLM_BASE_URL is set but QM_LLM_MODEL is not"@
                },
                (None, _, _) => made == Ok::<Option<Self>, String>(None),
            },
    {
        let url: &String = match base_url {
            Some(url) => url,
            None => {
                return Ok(None);
            },
        };
        if is_blank(url.as_str()) {
            return Ok(None);
        }
        match (api_key, model) {
            (Some(key), Some(name)) => match Self::new(url.as_str(), key.as_str(), name.as_str()) {
                Ok(made) => Ok(Some(made)),
                Err(why) => Err(why),
            },
            (None, _) => Err("QM_LLM_BASE_URL is set but QM_LLM_API_KEY is not".to_owned()),
            (Some(_), None) => Err("QM_LLM_BASE_URL is set but QM_LLM_MODEL is not".to_owned()),
        }
    }

    /// Where a request goes.
    pub fn endpoint(&self) -> (url: String)
        ensures
            url@ == self.base_url@ + "/chat/completions"@,
    {
        let mut url: String = self.base_url.clone();
        url.append("/chat/completions");
        url
    }

    /// What the model is asked to compile.
    pub fn prompt(observations: &Vec<Observation>) -> (text: String)
        ensures
            text@ == prompt_text(observations_view(observations@)),
    {
        let ghost list = observations_view(observations@);
        let mut text: String = "Compile these session observations into one page:\n\n".to_owned();
        let mut i: usize = 0;
        assert(list.take(0) =~= Seq::empty());
        while i < observations.len()
            invariant
                list == observations_view(observations@),
                i <= observations@.len(),
                text@ == prompt_text(list.take(i as int)),
            decreases observations@.len() - i,
        {
            assert(list.take(i + 1).drop_last() =~= list.take(i as int));
            let o: &Observation = &observations[i];
            let mut line: String = "[".to_owned();
            line.append(signed_text(o.created_at_ms).as_str());
            line.append("] ");
            line.append(o.kind.as_str());
            line.append(" (");
            line.append(o.actor.as_str());
            line.append("): ");
            line.append(o.text.as_str());
            line.append("\n");
            text.append(line.as_str());
            i += 1;
        }
        assert(list.take(i as int) =~= list);
        text
    }
}

// ---- The answer --------------------------------------------------------------------------------

/// The text that an answer holds: the content of the message of the first choice, where
/// that is a string.
pub open spec fn content_in(response: Json) -> Option<Seq<char>> {
    match member(response, "choices"@) {
        Some(choices) => match first_element(choices) {
            Some(choice) => match member(choice, "message"@) {
                Some(message) => match member(message, "content"@) {
                    Some(Json::Text(text)) => Some(text@),
                    _ => None,
                },
                None => None,
            },
            None => None,
        },
        None => None,
    }
}

/// The text of an answer of the model, without white space around it.
pub fn parse_chat_completion(response: &Json) -> (content: Result<String, String>)
    ensures
        match content {
            Ok(text) => content_in(*response) matches Some(found) && !blank(found) && text@
                == trimmed(found, CharClass::Space),
            Err(why) => (content_in(*response) matches Some(found) ==> blank(found)) && why@
                == "chat completion had no content"@,
        },
{
    if let Some(choices) = response.get("choices") {
        if let Some(choice) = choices.first() {
            if let Some(message) = choice.get("message") {
                if let Some(Json::Text(text)) = message.get("content") {
                    let bare: String = trim(text.as_str(), CharClass::Space);
                    if !bare.as_str().is_empty() {
                        return Ok(bare);
                    }
                }
            }
        }
    }
    Err("chat completion had no content".to_owned())
}

// ---- Laws --------------------------------------------------------------------------------------

/// The ids of a chain, in order.
pub open spec fn ids(list: Seq<ObservationView>) -> Seq<Seq<char>> {
    Seq::new(list.len(), |i: int| list[i].observation_id)
}

/// Whether no id holds a line break.
pub open spec fn ids_on_one_line(list: Seq<ObservationView>) -> bool {
    forall|i: int|
        0 <= i < list.len() ==> !(#[trigger] list[i]).observation_id.contains('\n')
}

/// Appending, reordering or replacing an observation changes what the fingerprint is
/// taken of; a replay does not.
pub proof fn law_material_tells_chains_apart(a: Seq<ObservationView>, b: Seq<ObservationView>)
    requires
        ids_on_one_line(a),
        ids_on_one_line(b),
    ensures
        material(a) == material(b) <==> ids(a) == ids(b),
    decreases a.len(),
{
    if a.len() == 0 || b.len() == 0 {
        if a.len() == 0 && b.len() == 0 {
            assert(ids(a) =~= ids(b));
        } else {
            assert(ids(a).len() != ids(b).len());
            assert(material(a).len() != material(b).len());
        }
    } else {
        let ia = a.drop_last();
        let ib = b.drop_last();
        let x = a.last().observation_id;
        let y = b.last().observation_id;
        law_material_tells_chains_apart(ia, ib);
        let p = material(ia);
        let q = material(ib);
        let m = material(a);
        let n = material(b);
        assert(m == (p + x).push('\n'));
        assert(n == (q + y).push('\n'));
        assert(!x.contains('\n') && !y.contains('\n')) by {
            assert(!a[a.len() - 1].observation_id.contains('\n'));
            assert(!b[b.len() - 1].observation_id.contains('\n'));
        }
        if m == n {
            assert(m.len() == p.len() + x.len() + 1);
            assert(n.len() == q.len() + y.len() + 1);
            if p.len() < q.len() {
                assert(ib.len() > 0);
                let k: int = q.len() - 1;
                assert(q[k] == '\n');
                assert(n[k] == '\n');
                assert(m[k] == x[k - p.len()]);
                assert(x.contains('\n'));
            }
            if q.len() < p.len() {
                assert(ia.len() > 0);
                let k: int = p.len() - 1;
                assert(p[k] == '\n');
                assert(m[k] == '\n');
                assert(n[k] == y[k - q.len()]);
                assert(y.contains('\n'));
            }
            assert(p =~= m.take(p.len() as int));
            assert(q =~= n.take(q.len() as int));
            assert(x =~= m.subrange(p.len() as int, m.len() - 1));
            assert(y =~= n.subrange(q.len() as int, n.len() - 1));
            assert(ids(a) =~= ids(ia).push(x));
            assert(ids(b) =~= ids(ib).push(y));
        }
        if ids(a) == ids(b) {
            assert(ids(ia) =~= ids(a).drop_last());
            assert(ids(ib) =~= ids(b).drop_last());
            assert(ids(a).last() == x && ids(b).last() == y);
        }
    }
}

proof fn lemma_found_at(text: Seq<char>, part: Seq<char>, from: int, at: int)
    requires
        0 <= from <= at,
        stands_at(text, part, at),
        forall|j: int| from <= j < at ==> !#[trigger] stands_at(text, part, j),
    ensures
        part_from(text, part, from) == Some(at),
{
    lemma_part_from(text, part, from);
}

/// A compiled page gives back the fingerprint it was marked with, without white space
/// around it.
pub proof fn law_a_page_gives_back_its_fingerprint(
    session: Seq<char>,
    fingerprint: Seq<char>,
    body: Seq<char>,
)
    requires
        !has_part(session, FINGERPRINT_PREFIX@),
        !has_part(fingerprint, " -->"@),
    ensures
        fingerprint_in(marked_page(session, fingerprint, body)) == Some(
            trimmed(fingerprint, CharClass::Space),
        ),
{
    reveal_strlit("# Session ");
    reveal_strlit("\n\n");
    reveal_strlit("<!-- qm:compiled ");
    reveal_strlit(" -->\n\n");
    reveal_strlit(" -->");
    let page = marked_page(session, fingerprint, body);
    let mark = FINGERPRINT_PREFIX@;
    let h: int = 12 + session.len() as int;
    let start: int = h + 17;
    let end: int = start + fingerprint.len();
    assert(mark.len() == 17);
    assert(page.subrange(h, start) =~= mark);
    assert forall|j: int| 0 <= j < h implies !#[trigger] stands_at(page, mark, j) by {
        if stands_at(page, mark, j) {
            let here = page.subrange(j, j + 17);
            assert(here == mark);
            assert(mark[0] == '<');
            assert(here[0] == page[j]);
            assert(10 <= j < 10 + session.len());
            let k: int = j - 10;
            if k + 17 <= session.len() {
                assert(session.subrange(k, k + 17) =~= here);
                assert(stands_at(session, mark, k));
            } else {
                let n: int = session.len() - k;
                assert(here[n] == page[h - 2]);
                assert(page[h - 2] == '\n');
                assert(mark[n] != '\n');
            }
        }
    }
    lemma_found_at(page, mark, 0, h);
    let close = " -->"@;
    assert(page.subrange(end, end + 4) =~= close);
    assert forall|j: int| start <= j < end implies !#[trigger] stands_at(page, close, j) by {
        if stands_at(page, close, j) {
            let here = page.subrange(j, j + 4);
            let k: int = j - start;
            if k + 4 <= fingerprint.len() {
                assert(fingerprint.subrange(k, k + 4) =~= here);
                assert(stands_at(fingerprint, close, k));
            } else {
                let n: int = fingerprint.len() - k;
                assert(here[n] == page[end]);
                assert(page[end] == ' ');
                assert(close[n] != ' ');
            }
        }
    }
    lemma_found_at(page, close, start, end);
    assert(page.subrange(start, end) =~= fingerprint);
}

// ---- Laws on what is rendered --------------------------------------------------------------

/// The rules make of a chain a line for each observation, in the order of the chain: the
/// lines of two chains one behind the other are those of the first and then those of the
/// second, and an observation alone makes the line "- [time] kind (actor) text".
pub proof fn law_every_observation_has_its_line(
    a: Seq<ObservationView>,
    b: Seq<ObservationView>,
    o: ObservationView,
)
    ensures
        rule_body(a + b) == rule_body(a) + rule_body(b),
        rule_body(Seq::<ObservationView>::empty()).len() == 0,
        rule_body(seq![o]) == "- ["@ + signed(o.created_at_ms as int) + "] "@ + o.kind + " ("@
            + o.actor + ") "@ + o.text + "\n"@,
    decreases b.len(),
{
    assert(seq![o].drop_last() =~= Seq::empty());
    reveal_with_fuel(rule_body, 2);
    assert(rule_body(seq![o]) =~= "- ["@ + signed(o.created_at_ms as int) + "] "@ + o.kind + " ("@
        + o.actor + ") "@ + o.text + "\n"@);
    if b.len() == 0 {
        assert(a + b =~= a);
        assert(rule_body(a) + rule_body(b) =~= rule_body(a));
    } else {
        law_every_observation_has_its_line(a, b.drop_last(), o);
        assert((a + b).drop_last() =~= a + b.drop_last());
        assert((a + b).last() == b.last());
        assert(rule_body(a + b) =~= rule_body(a) + rule_body(b));
    }
}

/// How long the lines of a chain are together: for each the ten characters of its brackets,
/// spaces and end, and its time, kind, actor and text.
pub open spec fn lines_length(list: Seq<ObservationView>) -> nat
    decreases list.len(),
{
    if list.len() == 0 {
        0
    } else {
        let o = list[0];
        10 + signed(o.created_at_ms as int).len() + o.kind.len() + o.actor.len() + o.text.len()
            + lines_length(list.skip(1))
    }
}

/// The body of a chain starts with the lines of its first observations, whatever follows
/// them, and is as long as all its lines together.
pub proof fn law_the_lines_stand_in_order(list: Seq<ObservationView>, i: int)
    requires
        0 <= i < list.len(),
    ensures
        ({
            let o = list[i];
            let before = rule_body(list.take(i));
            let line = "- ["@ + signed(o.created_at_ms as int) + "] "@ + o.kind + " ("@ + o.actor
                + ") "@ + o.text + "\n"@;
            &&& (before + line).len() <= rule_body(list).len()
            &&& rule_body(list).take((before + line).len() as int) == before + line
        }),
        rule_body(list).len() == lines_length(list),
{
    let o = list[i];
    let front = list.take(i);
    let back = list.skip(i + 1);
    assert(list =~= front + seq![o] + back);
    law_every_observation_has_its_line(front, seq![o], o);
    law_every_observation_has_its_line(front + seq![o], back, o);
    let line = "- ["@ + signed(o.created_at_ms as int) + "] "@ + o.kind + " ("@ + o.actor + ") "@
        + o.text + "\n"@;
    assert(rule_body(list).take((rule_body(front) + line).len() as int) =~= rule_body(front)
        + line);
    lemma_lines_length(list);
}

proof fn lemma_lines_length(list: Seq<ObservationView>)
    ensures
        rule_body(list).len() == lines_length(list),
    decreases list.len(),
{
    if list.len() > 0 {
        let rest = list.skip(1);
        let o = list[0];
        lemma_lines_length(rest);
        law_every_observation_has_its_line(seq![o], rest, o);
        assert(list =~= seq![o] + rest);
        assert(rule_body(list) == rule_body(seq![o]) + rule_body(rest));
        let time = signed(o.created_at_ms as int);
        let line = "- ["@ + time + "] "@ + o.kind + " ("@ + o.actor + ") "@ + o.text + "\n"@;
        assert(rule_body(seq![o]) == line);
        assert(line.len() == 10 + time.len() + o.kind.len() + o.actor.len() + o.text.len()) by {
            reveal_strlit("- [");
            reveal_strlit("] ");
            reveal_strlit(" (");
            reveal_strlit(") ");
            reveal_strlit("\n");
        }
        assert(lines_length(list) == 10 + time.len() + o.kind.len() + o.actor.len() + o.text.len()
            + lines_length(rest));
    }
}

/// What the fingerprint is taken of holds the id of every observation, in order, each with
/// its own line.
pub proof fn law_every_id_has_its_line(
    a: Seq<ObservationView>,
    b: Seq<ObservationView>,
    o: ObservationView,
)
    ensures
        material(a + b) == material(a) + material(b),
        material(seq![o]) == o.observation_id + "\n"@,
        material(Seq::<ObservationView>::empty()).len() == 0,
    decreases b.len(),
{
    reveal_strlit("\n");
    assert(seq![o].drop_last() =~= Seq::empty());
    reveal_with_fuel(material, 2);
    assert(material(seq![o]) =~= o.observation_id + "\n"@);
    if b.len() == 0 {
        assert(a + b =~= a);
        assert(material(a) + material(b) =~= material(a));
    } else {
        law_every_id_has_its_line(a, b.drop_last(), o);
        assert((a + b).drop_last() =~= a + b.drop_last());
        assert((a + b).last() == b.last());
        assert(material(a + b) =~= material(a) + material(b));
    }
}

/// The model is asked for every observation of the chain, in order, each on a line of its
/// own.
pub proof fn law_the_model_is_shown_every_observation(
    list: Seq<ObservationView>,
    o: ObservationView,
)
    ensures
        prompt_text(Seq::<ObservationView>::empty())
            == "Compile these session observations into one page:\n\n"@,
        prompt_text(list.push(o)) == prompt_text(list) + "["@ + signed(o.created_at_ms as int)
            + "] "@ + o.kind + " ("@ + o.actor + "): "@ + o.text + "\n"@,
{
    assert(list.push(o).drop_last() =~= list);
    assert(prompt_text(list.push(o)) =~= prompt_text(list) + "["@ + signed(o.created_at_ms as int)
        + "] "@ + o.kind + " ("@ + o.actor + "): "@ + o.text + "\n"@);
}

/// A rendered session names the session, says how many observations there are, and lists
/// every one of them in order.
pub proof fn law_a_rendered_session_lists_every_observation(
    session: Seq<char>,
    list: Seq<ObservationView>,
    o: ObservationView,
)
    ensures
        page_lines(Seq::<ObservationView>::empty()).len() == 0,
        page_lines(list.push(o)) == page_lines(list) + "\n- ["@ + signed(o.created_at_ms as int)
            + "] "@ + o.kind + " ("@ + o.actor + ") "@ + o.text,
        list.len() == 1 ==> session_page(session, list) == "# Session "@ + session
            + "\n\nCompiled from 1 observation.\n"@ + page_lines(list) + "\n"@,
        list.len() != 1 ==> session_page(session, list) == "# Session "@ + session
            + "\n\nCompiled from "@ + decimal(list.len()) + " observations.\n"@ + page_lines(list)
            + "\n"@,
{
    assert(list.push(o).drop_last() =~= list);
    assert(page_lines(list.push(o)) =~= page_lines(list) + "\n- ["@ + signed(o.created_at_ms as int)
        + "] "@ + o.kind + " ("@ + o.actor + ") "@ + o.text);
    reveal_strlit("");
    reveal_strlit("s");
    reveal_strlit("\n");
    reveal_strlit(".\n");
    reveal_strlit(" observation");
    reveal_strlit(" observations.\n");
    reveal_strlit("\n\nCompiled from 1 observation.\n");
    reveal_strlit("\n\nCompiled from ");
    if list.len() == 1 {
        crate::numbers::law_a_digit_is_its_character(1);
        assert(session_page(session, list) =~= "# Session "@ + session
            + "\n\nCompiled from 1 observation.\n"@ + page_lines(list) + "\n"@);
    } else {
        assert(session_page(session, list) =~= "# Session "@ + session + "\n\nCompiled from "@
            + decimal(list.len()) + " observations.\n"@ + page_lines(list) + "\n"@);
    }
}

/// A compiled page is the heading of its session, the mark with its fingerprint, and the
/// body without the white space around it, each on lines of their own.
pub proof fn law_a_compiled_page_is_put_together(
    session: Seq<char>,
    fingerprint: Seq<char>,
    body: Seq<char>,
)
    ensures
        marked_page(session, fingerprint, body) == "# Session "@ + session
            + "\n\n<!-- qm:compiled "@ + fingerprint + " -->\n\n"@ + trimmed(body, CharClass::Space)
            + "\n"@,
{
    reveal_strlit("\n\n");
    reveal_strlit("<!-- qm:compiled ");
    reveal_strlit("\n\n<!-- qm:compiled ");
    assert(marked_page(session, fingerprint, body) =~= "# Session "@ + session
        + "\n\n<!-- qm:compiled "@ + fingerprint + " -->\n\n"@ + trimmed(body, CharClass::Space)
        + "\n"@);
}

/// The address of an endpoint loses the slashes at its end and nothing else, and none of
/// the settings may be blank.
pub proof fn law_an_endpoint_loses_its_slashes(
    base_url: Seq<char>,
    slashes: Seq<char>,
    api_key: Seq<char>,
    model: Seq<char>,
)
    requires
        base_url.len() > 0,
        base_url.last() != '/',
        forall|i: int| 0 <= i < slashes.len() ==> #[trigger] slashes[i] == '/',
        !blank(base_url + slashes),
        !blank(api_key),
        !blank(model),
    ensures
        settings_of(base_url + slashes, api_key, model) == Ok::<
            (Seq<char>, Seq<char>, Seq<char>),
            Seq<char>,
        >((base_url, api_key, model)),
    decreases slashes.len(),
{
    let whole = base_url + slashes;
    lemma_slashes(base_url, slashes);
}

proof fn lemma_slashes(base_url: Seq<char>, slashes: Seq<char>)
    requires
        base_url.len() > 0,
        base_url.last() != '/',
        forall|i: int| 0 <= i < slashes.len() ==> #[trigger] slashes[i] == '/',
    ensures
        without_end(base_url + slashes, CharClass::Char('/')) == base_url,
    decreases slashes.len(),
{
    let whole = base_url + slashes;
    if slashes.len() == 0 {
        assert(whole =~= base_url);
    } else {
        assert(whole.last() == slashes[slashes.len() - 1]);
        assert(whole.drop_last() =~= base_url + slashes.drop_last());
        lemma_slashes(base_url, slashes.drop_last());
    }
}

} // verus!
