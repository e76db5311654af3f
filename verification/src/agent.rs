//! Agents: who holds which resources and tokens, and how they pass from
//! one to another.
//!
//! An agent is known by its name. Amounts are counted in 64 bits and wrap
//! around; what is taken from an agent leaves it with no less than 0.

use vstd::prelude::*;
use vstd::string::StringExecFns;
use crate::json::{decode_value, text_value};
use crate::named::{find_named, lemma_place_is, lemma_place_of, names, place_of};
use crate::types::{copy_tokens, tokens_view, HyperTokenError, IToken, TokenView};

verus! {

/// What an agent is and holds.
#[derive(Debug, Clone)]
pub struct AgentState {
    pub id: String,
    pub name: String,
    pub active: bool,
    /// How much the agent has of each resource; no resource twice.
    pub resources: Vec<(String, i64)>,
    pub inventory: Vec<IToken>,
    pub meta: serde_json::Value,
}

/// The amounts of resources, by name.
pub type Amounts = Seq<(Seq<char>, i64)>;

pub ghost struct AgentView {
    pub id: Seq<char>,
    pub name: Seq<char>,
    pub active: bool,
    pub resources: Amounts,
    pub inventory: Seq<TokenView>,
    pub meta: serde_json::Value,
}

pub open spec fn amounts_view(v: Seq<(String, i64)>) -> Amounts {
    v.map_values(|e: (String, i64)| (e.0@, e.1))
}

impl View for AgentState {
    type V = AgentView;

    open spec fn view(&self) -> AgentView {
        AgentView {
            id: self.id@,
            name: self.name@,
            active: self.active,
            resources: amounts_view(self.resources@),
            inventory: tokens_view(self.inventory@),
            meta: self.meta,
        }
    }
}

/// The agents, each under its name.
pub type Agents = Seq<(Seq<char>, AgentView)>;

pub open spec fn agents_view(v: Seq<(String, AgentState)>) -> Agents {
    v.map_values(|e: (String, AgentState)| (e.0@, e.1@))
}

/// The names of the resources, in their order.
pub open spec fn resource_names(rs: Amounts) -> Seq<Seq<char>> {
    rs.map_values(|e: (Seq<char>, i64)| e.0)
}

/// How much there is of a resource; 0 where it is not listed.
pub open spec fn amount_of(rs: Amounts, resource: Seq<char>) -> i64 {
    if place_of(resource_names(rs), resource) < rs.len() {
        rs[place_of(resource_names(rs), resource)].1
    } else {
        0
    }
}

/// The amounts with that of `resource` set to `amount`.
pub open spec fn with_amount(rs: Amounts, resource: Seq<char>, amount: i64) -> Amounts {
    if place_of(resource_names(rs), resource) < rs.len() {
        rs.update(place_of(resource_names(rs), resource), (resource, amount))
    } else {
        rs.push((resource, amount))
    }
}

/// The names under which the agents stand.
pub open spec fn agent_names(agents: Agents) -> Seq<Seq<char>> {
    agents.map_values(|e: (Seq<char>, AgentView)| e.0)
}

pub open spec fn has_agent(agents: Agents, name: Seq<char>) -> bool {
    place_of(agent_names(agents), name) < agents.len()
}

/// The agent `name`.
pub open spec fn agent_named(agents: Agents, name: Seq<char>) -> AgentView {
    agents[place_of(agent_names(agents), name)].1
}

/// The agents with the agent `name` replaced by `agent`.
pub open spec fn with_agent(agents: Agents, name: Seq<char>, agent: AgentView) -> Agents {
    agents.update(place_of(agent_names(agents), name), (name, agent))
}

/// The agent with `amount` more of `resource`.
pub open spec fn given(a: AgentView, resource: Seq<char>, amount: i64) -> AgentView {
    AgentView {
        resources: with_amount(a.resources, resource, amount_of(a.resources, resource).wrapping_add(amount)),
        ..a
    }
}

/// What is left of `current` after `amount` is taken: no less than 0.
pub open spec fn left_of(current: i64, amount: i64) -> i64 {
    if current.wrapping_sub(amount) > 0 {
        current.wrapping_sub(amount)
    } else {
        0
    }
}

/// The agent with `amount` less of `resource`, but no less than 0.
pub open spec fn taken(a: AgentView, resource: Seq<char>, amount: i64) -> AgentView {
    AgentView {
        resources: with_amount(a.resources, resource, left_of(amount_of(a.resources, resource), amount)),
        ..a
    }
}

/// The agents after `name` was given `amount` of `resource`; `None` where
/// there is no such agent.
pub open spec fn give_in(agents: Agents, name: Seq<char>, resource: Seq<char>, amount: i64) -> Option<Agents> {
    if has_agent(agents, name) {
        Some(with_agent(agents, name, given(agent_named(agents, name), resource, amount)))
    } else {
        None
    }
}

/// The agents after `amount` of `resource` was taken from `name`; `None`
/// where there is no such agent.
pub open spec fn take_in(agents: Agents, name: Seq<char>, resource: Seq<char>, amount: i64) -> Option<Agents> {
    if has_agent(agents, name) {
        Some(with_agent(agents, name, taken(agent_named(agents, name), resource, amount)))
    } else {
        None
    }
}

/// The identifiers of the tokens, in their order.
pub open spec fn token_ids(inventory: Seq<TokenView>) -> Seq<Seq<char>> {
    inventory.map_values(|t: TokenView| t.id)
}

pub open spec fn holds_token(a: AgentView, token_id: Seq<char>) -> bool {
    place_of(token_ids(a.inventory), token_id) < a.inventory.len()
}

/// The agents after `name` got the token; `None` where there is no such agent.
pub open spec fn add_token_in(agents: Agents, name: Seq<char>, token: TokenView) -> Option<Agents> {
    if has_agent(agents, name) {
        let a = agent_named(agents, name);
        Some(with_agent(agents, name, AgentView { inventory: a.inventory.push(token), ..a }))
    } else {
        None
    }
}

/// The agents after `name` lost its first token of that identifier, and
/// the token; `None` where there is no such agent or it holds no such token.
pub open spec fn remove_token_in(agents: Agents, name: Seq<char>, token_id: Seq<char>) -> Option<(Agents, TokenView)> {
    if has_agent(agents, name) && holds_token(agent_named(agents, name), token_id) {
        let a = agent_named(agents, name);
        let at = place_of(token_ids(a.inventory), token_id);
        Some((with_agent(agents, name, AgentView { inventory: a.inventory.remove(at), ..a }), a.inventory[at]))
    } else {
        None
    }
}

/// What one side of a trade offers: an amount of a resource (1 where no
/// amount is named), or else a token, or nothing.
#[derive(Debug, Clone)]
pub struct TradeOffer {
    pub resource: Option<String>,
    pub amount: Option<i64>,
    pub token: Option<String>,
}

pub ghost struct OfferView {
    pub resource: Option<Seq<char>>,
    pub amount: Option<i64>,
    pub token: Option<Seq<char>>,
}

impl View for TradeOffer {
    type V = OfferView;

    open spec fn view(&self) -> OfferView {
        OfferView { resource: self.resource.deep_view(), amount: self.amount, token: self.token.deep_view() }
    }
}

/// The amount that an offer of a resource is about.
pub open spec fn offered_amount(o: OfferView) -> i64 {
    match o.amount {
        Some(a) => a,
        None => 1,
    }
}

/// `agent` has what it offers.
pub open spec fn can_offer(agent: AgentView, o: OfferView) -> bool {
    if o.resource is Some {
        amount_of(agent.resources, o.resource->0) >= offered_amount(o)
    } else if o.token is Some {
        holds_token(agent, o.token->0)
    } else {
        true
    }
}

/// The agents after `from` handed what it offers to `to`. Where a step
/// cannot be taken the agents stay as they are.
pub open spec fn handed_over(agents: Agents, from: Seq<char>, to: Seq<char>, o: OfferView) -> Agents {
    if o.resource is Some {
        match take_in(agents, from, o.resource->0, offered_amount(o)) {
            Some(a1) => match give_in(a1, to, o.resource->0, offered_amount(o)) {
                Some(a2) => a2,
                None => a1,
            },
            None => agents,
        }
    } else if o.token is Some {
        match remove_token_in(agents, from, o.token->0) {
            Some((a1, t)) => match add_token_in(a1, to, t) {
                Some(a2) => a2,
                None => a1,
            },
            None => agents,
        }
    } else {
        agents
    }
}

/// A token that is held is still held after another was added at the end.
pub proof fn lemma_held_after_push(inventory: Seq<TokenView>, token: TokenView, token_id: Seq<char>)
    requires
        place_of(token_ids(inventory), token_id) < inventory.len() || token.id == token_id,
    ensures
        place_of(token_ids(inventory.push(token)), token_id) < inventory.len() + 1,
{
    let ids = token_ids(inventory);
    let more = token_ids(inventory.push(token));
    assert(more =~= ids.push(token.id));
    lemma_place_of(ids, token_id);
    lemma_place_of(more, token_id);
    let p = place_of(ids, token_id);
    if p < inventory.len() {
        assert(more[p] == token_id);
    } else {
        assert(more[inventory.len() as int] == token_id);
    }
}

/// A token that is held is still held after another one was taken out.
pub proof fn lemma_held_after_remove(inventory: Seq<TokenView>, at: int, token_id: Seq<char>)
    requires
        0 <= at < inventory.len(),
        place_of(token_ids(inventory), token_id) < inventory.len(),
        inventory[at].id != token_id,
    ensures
        place_of(token_ids(inventory.remove(at)), token_id) < inventory.len() - 1,
{
    let ids = token_ids(inventory);
    let fewer = token_ids(inventory.remove(at));
    assert(fewer =~= ids.remove(at));
    lemma_place_of(ids, token_id);
    lemma_place_of(fewer, token_id);
    let p = place_of(ids, token_id);
    if p < at {
        assert(fewer[p] == token_id);
    } else {
        assert(fewer[p - 1] == token_id);
    }
}

/// The agent under a name after the agent under some name was replaced.
pub proof fn lemma_with_agent(agents: Agents, name: Seq<char>, agent: AgentView, other: Seq<char>)
    requires
        has_agent(agents, name),
    ensures
        agent_names(with_agent(agents, name, agent)) == agent_names(agents),
        has_agent(with_agent(agents, name, agent), other) == has_agent(agents, other),
        has_agent(agents, other) ==> agent_named(with_agent(agents, name, agent), other) == (if other == name {
            agent
        } else {
            agent_named(agents, other)
        }),
{
    lemma_place_of(agent_names(agents), name);
    lemma_place_of(agent_names(agents), other);
    assert(agent_names(with_agent(agents, name, agent)) =~= agent_names(agents));
}

/// An agent that holds a token still holds it after another agent handed
/// it what that one offered, or after it handed over something else.
pub proof fn lemma_still_holds(agents: Agents, giver: Seq<char>, holder: Seq<char>, o: OfferView, token_id: Seq<char>)
    requires
        has_agent(agents, giver),
        has_agent(agents, holder),
        can_offer(agent_named(agents, giver), o),
        holds_token(agent_named(agents, holder), token_id),
    ensures
        has_agent(handed_over(agents, giver, holder, o), holder),
        holds_token(agent_named(handed_over(agents, giver, holder, o), holder), token_id),
{
    if o.resource is Some {
        let res = o.resource->0;
        let amt = offered_amount(o);
        let a1 = with_agent(agents, giver, taken(agent_named(agents, giver), res, amt));
        lemma_with_agent(agents, giver, taken(agent_named(agents, giver), res, amt), holder);
        lemma_with_agent(a1, holder, given(agent_named(a1, holder), res, amt), holder);
    } else if o.token is Some {
        let g = agent_named(agents, giver);
        let at = place_of(token_ids(g.inventory), o.token->0);
        let t = g.inventory[at];
        lemma_place_of(token_ids(g.inventory), o.token->0);
        assert(token_ids(g.inventory)[at] == t.id);
        let g1 = AgentView { inventory: g.inventory.remove(at), ..g };
        let a1 = with_agent(agents, giver, g1);
        lemma_with_agent(agents, giver, g1, holder);
        let h = agent_named(a1, holder);
        let h1 = AgentView { inventory: h.inventory.push(t), ..h };
        lemma_with_agent(a1, holder, h1, holder);
        if holder == giver {
            if t.id != token_id {
                lemma_held_after_remove(g.inventory, at, token_id);
            }
            lemma_held_after_push(g1.inventory, t, token_id);
        } else {
            lemma_held_after_push(h.inventory, t, token_id);
        }
    }
}

/// What a transfer of a resource left with each side.
#[derive(Debug, Clone)]
pub struct TransferReceipt {
    pub from_remaining: i64,
    pub to_total: i64,
}

/// What a theft of a resource took and left with each side.
#[derive(Debug, Clone)]
pub struct StealReceipt {
    pub stolen: i64,
    pub from_remaining: i64,
    pub to_total: i64,
}

/// `Value::Object` of `Map::new`: the empty object, which is also what
/// the text `{}` parses to.
#[verifier::external_body]
fn empty_object_value() -> (r: serde_json::Value)
    ensures
        text_value("{}"@) == Some(r),
{
    serde_json::Value::Object(serde_json::Map::new())
}

/// The meta data of an agent made with the given text: what the text
/// parses to, the empty object where no text is given.
pub open spec fn meta_of(meta_json: Option<Seq<char>>) -> Option<serde_json::Value> {
    match meta_json {
        Some(text) => text_value(text),
        None => text_value("{}"@),
    }
}

/// How much there is of a resource; 0 where it is not listed.
pub fn amount_in(resources: &Vec<(String, i64)>, resource: &str) -> (r: i64)
    ensures
        r == amount_of(amounts_view(resources@), resource@),
{
    let i = find_named(resources, resource);
    proof {
        assert(names(resources@) =~= resource_names(amounts_view(resources@)));
    }
    if i < resources.len() {
        resources[i].1
    } else {
        0
    }
}

/// Sets the amount of a resource.
pub fn set_amount(resources: &mut Vec<(String, i64)>, resource: &str, amount: i64)
    ensures
        amounts_view(final(resources)@) == with_amount(amounts_view(old(resources)@), resource@, amount),
{
    let i = find_named(resources, resource);
    let ghost before = amounts_view(resources@);
    proof {
        assert(names(resources@) =~= resource_names(before));
    }
    if i < resources.len() {
        resources.remove(i);
        resources.insert(i, (resource.to_owned(), amount));
        proof {
            assert(amounts_view(resources@) =~= before.update(i as int, (resource@, amount)));
        }
    } else {
        resources.push((resource.to_owned(), amount));
        proof {
            assert(amounts_view(resources@) =~= before.push((resource@, amount)));
        }
    }
}

/// The error for an agent that is not there, with its name in the message.
fn not_found(name: &str) -> (e: HyperTokenError)
    ensures
        e is InvalidOperation,
        e->InvalidOperation_0@ == "Agent "@ + name@ + " not found"@,
{
    let mut text = "Agent ".to_owned();
    text.append(name);
    text.append(" not found");
    HyperTokenError::InvalidOperation(text)
}

/// The error for what cannot be done: the message is `text` and then `name`.
fn invalid(text: &str, name: &str) -> (e: HyperTokenError)
    ensures
        e is InvalidOperation,
        e->InvalidOperation_0@ == text@ + name@,
{
    let mut out = text.to_owned();
    out.append(name);
    HyperTokenError::InvalidOperation(out)
}

/// A copy of an agent.
fn copy_agent(a: &AgentState) -> (r: AgentState)
    ensures
        r@ == a@,
{
    let mut resources: Vec<(String, i64)> = Vec::new();
    let mut i: usize = 0;
    proof {
        assert(amounts_view(resources@) =~= amounts_view(a.resources@).take(0));
    }
    while i < a.resources.len()
        invariant
            0 <= i <= a.resources.len(),
            amounts_view(resources@) == amounts_view(a.resources@).take(i as int),
        decreases a.resources.len() - i,
    {
        let ghost before = resources@;
        resources.push((a.resources[i].0.clone(), a.resources[i].1));
        proof {
            assert(amounts_view(resources@) =~= amounts_view(before).push(amounts_view(a.resources@)[i as int]));
            assert(amounts_view(a.resources@).take(i + 1) =~= amounts_view(a.resources@).take(i as int).push(
                amounts_view(a.resources@)[i as int],
            ));
        }
        i = i + 1;
    }
    proof {
        assert(amounts_view(a.resources@).take(a.resources.len() as int) =~= amounts_view(a.resources@));
    }
    let inventory = copy_tokens(&a.inventory, 0);
    proof {
        assert(tokens_view(a.inventory@).skip(0) =~= tokens_view(a.inventory@));
    }
    AgentState {
        id: a.id.clone(),
        name: a.name.clone(),
        active: a.active,
        resources,
        inventory,
        meta: a.meta.clone(),
    }
}

/// The agents of a game.
pub struct AgentManager {
    agents: Vec<(String, AgentState)>,
}

impl AgentManager {
    /// The agents, each under its name, in the order in which they were made.
    pub closed spec fn agents(&self) -> Agents {
        agents_view(self.agents@)
    }

    /// No agents.
    pub fn new() -> (r: AgentManager)
        ensures
            r.agents().len() == 0,
    {
        AgentManager { agents: Vec::new() }
    }

    /// Where the agent `name` stands; the number of agents where there is none.
    fn find(&self, name: &str) -> (r: usize)
        ensures
            r == place_of(agent_names(self.agents()), name@),
            r <= self.agents.len(),
            r < self.agents.len() <==> has_agent(self.agents(), name@),
            r < self.agents.len() ==> self.agents()[r as int] == (name@, self.agents[r as int].1@),
    {
        let i = find_named(&self.agents, name);
        proof {
            assert(names(self.agents@) =~= agent_names(self.agents()));
        }
        i
    }

    /// Puts `agent` in the place `i`, under the name it stood under.
    fn put_back(&mut self, i: usize, name: &str, agent: AgentState)
        requires
            i < old(self).agents.len(),
            i == place_of(agent_names(old(self).agents()), name@),
        ensures
            final(self).agents() == with_agent(old(self).agents(), name@, agent@),
            agent_names(final(self).agents()) == agent_names(old(self).agents()),
    {
        let ghost before = self.agents();
        proof {
            lemma_place_of(agent_names(before), name@);
        }
        self.agents.remove(i);
        self.agents.insert(i, (name.to_owned(), agent));
        proof {
            assert(self.agents() =~= with_agent(before, name@, agent@));
            assert(agent_names(self.agents()) =~= agent_names(before));
        }
    }

    /// Makes an agent, active and with nothing, and returns a copy of it.
    /// Its meta data are what the text parses to, the empty object where
    /// no text is given. Fails where an agent has the name already, or the
    /// text is no JSON.
    pub fn create_agent(&mut self, id: &str, name: &str, meta_json: Option<String>) -> (r: Result<
        AgentState,
        HyperTokenError,
    >)
        ensures
            has_agent(old(self).agents(), name@) ==> r is Err && r->Err_0 is InvalidOperation && final(self).agents()
                == old(self).agents(),
            !has_agent(old(self).agents(), name@) && meta_of(meta_json.deep_view()) is None ==> r is Err
                && r->Err_0 is SerializationError && final(self).agents() == old(self).agents(),
            !has_agent(old(self).agents(), name@) && meta_of(meta_json.deep_view()) is Some ==> r is Ok
                && r->Ok_0@ == (AgentView {
                id: id@,
                name: name@,
                active: true,
                resources: Seq::empty(),
                inventory: Seq::empty(),
                meta: meta_of(meta_json.deep_view())->0,
            }) && final(self).agents() == old(self).agents().push((name@, r->Ok_0@)),
    {
        if self.find(name) < self.agents.len() {
            return Err(invalid("Agent already exists: ", name));
        }
        let meta = match meta_json {
            Some(json) => match decode_value(json.as_str()) {
                Some(v) => v,
                None => {
                    return Err(HyperTokenError::SerializationError("invalid JSON".to_owned()));
                },
            },
            None => empty_object_value(),
        };
        let agent = AgentState {
            id: id.to_owned(),
            name: name.to_owned(),
            active: true,
            resources: Vec::new(),
            inventory: Vec::new(),
            meta,
        };
        proof {
            assert(amounts_view(agent.resources@) =~= Seq::empty());
            assert(tokens_view(agent.inventory@) =~= Seq::empty());
        }
        let copy = copy_agent(&agent);
        let ghost before = self.agents();
        self.agents.push((name.to_owned(), agent));
        proof {
            assert(self.agents() =~= before.push((name@, agent@)));
        }
        Ok(copy)
    }

    /// Removes an agent. Fails where there is no such agent.
    pub fn remove_agent(&mut self, name: &str) -> (r: Result<(), HyperTokenError>)
        ensures
            has_agent(old(self).agents(), name@) ==> r is Ok && final(self).agents() == old(self).agents().remove(
                place_of(agent_names(old(self).agents()), name@),
            ),
            !has_agent(old(self).agents(), name@) ==> r is Err && r->Err_0 is InvalidOperation && final(self).agents()
                == old(self).agents(),
    {
        let i = self.find(name);
        if i >= self.agents.len() {
            return Err(not_found(name));
        }
        let ghost before = self.agents();
        self.agents.remove(i);
        proof {
            assert(self.agents() =~= before.remove(i as int));
        }
        Ok(())
    }

    /// Says whether an agent takes part. Fails where there is no such agent.
    pub fn set_agent_active(&mut self, name: &str, active: bool) -> (r: Result<(), HyperTokenError>)
        ensures
            has_agent(old(self).agents(), name@) ==> r is Ok && final(self).agents() == with_agent(
                old(self).agents(),
                name@,
                AgentView { active, ..agent_named(old(self).agents(), name@) },
            ),
            !has_agent(old(self).agents(), name@) ==> r is Err && r->Err_0 is InvalidOperation && final(self).agents()
                == old(self).agents(),
    {
        let i = self.find(name);
        if i >= self.agents.len() {
            return Err(not_found(name));
        }
        let mut agent = copy_agent(&self.agents[i].1);
        agent.active = active;
        self.put_back(i, name, agent);
        Ok(())
    }

    /// Gives an agent `amount` of a resource. Fails where there is no such agent.
    pub fn give_resource(&mut self, name: &str, resource: &str, amount: i64) -> (r: Result<(), HyperTokenError>)
        ensures
            match give_in(old(self).agents(), name@, resource@, amount) {
                Some(a) => r is Ok && final(self).agents() == a,
                None => r is Err && r->Err_0 is InvalidOperation && final(self).agents() == old(self).agents(),
            },
            agent_names(final(self).agents()) == agent_names(old(self).agents()),
    {
        let i = self.find(name);
        if i >= self.agents.len() {
            return Err(not_found(name));
        }
        let mut agent = copy_agent(&self.agents[i].1);
        let current = amount_in(&agent.resources, resource);
        set_amount(&mut agent.resources, resource, current.wrapping_add(amount));
        self.put_back(i, name, agent);
        Ok(())
    }

    /// Takes `amount` of a resource from an agent, leaving no less than 0.
    /// Fails where there is no such agent.
    pub fn take_resource(&mut self, name: &str, resource: &str, amount: i64) -> (r: Result<(), HyperTokenError>)
        ensures
            match take_in(old(self).agents(), name@, resource@, amount) {
                Some(a) => r is Ok && final(self).agents() == a,
                None => r is Err && r->Err_0 is InvalidOperation && final(self).agents() == old(self).agents(),
            },
            agent_names(final(self).agents()) == agent_names(old(self).agents()),
    {
        let i = self.find(name);
        if i >= self.agents.len() {
            return Err(not_found(name));
        }
        let mut agent = copy_agent(&self.agents[i].1);
        let current = amount_in(&agent.resources, resource);
        let rest = current.wrapping_sub(amount);
        let left = if rest > 0 {
            rest
        } else {
            0
        };
        set_amount(&mut agent.resources, resource, left);
        self.put_back(i, name, agent);
        Ok(())
    }

    /// Puts a token into an agent's inventory. Fails where there is no such agent.
    pub fn add_token(&mut self, name: &str, token: IToken) -> (r: Result<(), HyperTokenError>)
        ensures
            match add_token_in(old(self).agents(), name@, token@) {
                Some(a) => r is Ok && final(self).agents() == a,
                None => r is Err && r->Err_0 is InvalidOperation && final(self).agents() == old(self).agents(),
            },
            agent_names(final(self).agents()) == agent_names(old(self).agents()),
    {
        let i = self.find(name);
        if i >= self.agents.len() {
            return Err(not_found(name));
        }
        let mut agent = copy_agent(&self.agents[i].1);
        let ghost before = agent.inventory@;
        agent.inventory.push(token);
        proof {
            assert(tokens_view(agent.inventory@) =~= tokens_view(before).push(token@));
        }
        self.put_back(i, name, agent);
        Ok(())
    }

    /// Takes the first token of that identifier out of an agent's
    /// inventory and returns it. Fails where there is no such agent or it
    /// holds no such token.
    pub fn remove_token(&mut self, name: &str, token_id: &str) -> (r: Result<IToken, HyperTokenError>)
        ensures
            match remove_token_in(old(self).agents(), name@, token_id@) {
                Some((a, t)) => r is Ok && r->Ok_0@ == t && final(self).agents() == a,
                None => r is Err && r->Err_0 is InvalidOperation && final(self).agents() == old(self).agents(),
            },
            agent_names(final(self).agents()) == agent_names(old(self).agents()),
    {
        let i = self.find(name);
        if i >= self.agents.len() {
            return Err(not_found(name));
        }
        let mut agent = copy_agent(&self.agents[i].1);
        let at = Self::find_token(&agent.inventory, token_id);
        if at >= agent.inventory.len() {
            return Err(invalid("Agent does not have token ", token_id));
        }
        let ghost before = agent.inventory@;
        let removed = agent.inventory.remove(at);
        proof {
            assert(tokens_view(agent.inventory@) =~= tokens_view(before).remove(at as int));
        }
        self.put_back(i, name, agent);
        Ok(removed)
    }

    /// Where the first token of that identifier stands; the number of
    /// tokens where there is none.
    fn find_token(inventory: &Vec<IToken>, token_id: &str) -> (r: usize)
        ensures
            r == place_of(token_ids(tokens_view(inventory@)), token_id@),
            r <= inventory.len(),
    {
        let wanted = token_id.to_owned();
        let ghost ids = token_ids(tokens_view(inventory@));
        let mut i: usize = 0;
        while i < inventory.len()
            invariant
                0 <= i <= inventory.len(),
                wanted@ == token_id@,
                ids == token_ids(tokens_view(inventory@)),
                forall|j: int| 0 <= j < i ==> ids[j] != token_id@,
            decreases inventory.len() - i,
        {
            proof {
                assert(ids[i as int] == inventory[i as int].id@);
            }
            if inventory[i].id == wanted {
                proof {
                    lemma_place_is(ids, token_id@, i as int);
                }
                return i;
            }
            i = i + 1;
        }
        proof {
            lemma_place_is(ids, token_id@, i as int);
        }
        i
    }

    /// A copy of an agent. Fails where there is no such agent.
    pub fn get_agent(&self, name: &str) -> (r: Result<AgentState, HyperTokenError>)
        ensures
            has_agent(self.agents(), name@) ==> r is Ok && r->Ok_0@ == agent_named(self.agents(), name@),
            !has_agent(self.agents(), name@) ==> r is Err && r->Err_0 is InvalidOperation,
    {
        let i = self.find(name);
        if i >= self.agents.len() {
            return Err(not_found(name));
        }
        Ok(copy_agent(&self.agents[i].1))
    }

    /// How much an agent has of a resource; 0 where there is no such agent.
    fn holding(&self, name: &str, resource: &str) -> (r: i64)
        ensures
            has_agent(self.agents(), name@) ==> r == amount_of(agent_named(self.agents(), name@).resources, resource@),
            !has_agent(self.agents(), name@) ==> r == 0,
    {
        let i = self.find(name);
        if i < self.agents.len() {
            amount_in(&self.agents[i].1.resources, resource)
        } else {
            0
        }
    }

    /// Moves `amount` of a resource from one agent to another and says
    /// what each then has. Fails, and changes nothing, where either agent
    /// is not there or the first has less than `amount`.
    pub fn transfer_resource(&mut self, from: &str, to: &str, resource: &str, amount: i64) -> (r: Result<
        TransferReceipt,
        HyperTokenError,
    >)
        ensures
            ({
                let agents = old(self).agents();
                if !has_agent(agents, from@) || amount_of(agent_named(agents, from@).resources, resource@) < amount
                    || !has_agent(agents, to@) {
                    r is Err && r->Err_0 is InvalidOperation && final(self).agents() == agents
                } else {
                    let after = give_in(take_in(agents, from@, resource@, amount)->0, to@, resource@, amount)->0;
                    r is Ok && final(self).agents() == after && r->Ok_0.from_remaining == amount_of(
                        agent_named(after, from@).resources,
                        resource@,
                    ) && r->Ok_0.to_total == amount_of(agent_named(after, to@).resources, resource@)
                }
            }),
    {
        if self.find(from) >= self.agents.len() {
            return Err(not_found(from));
        }
        let available = self.holding(from, resource);
        if available < amount {
            return Err(invalid("Agent has too little to transfer: ", from));
        }
        if self.find(to) >= self.agents.len() {
            return Err(not_found(to));
        }
        self.take_resource(from, resource, amount)?;
        self.give_resource(to, resource, amount)?;
        let from_remaining = self.holding(from, resource);
        let to_total = self.holding(to, resource);
        Ok(TransferReceipt { from_remaining, to_total })
    }

    /// Moves a token from one agent to another and returns a copy of it.
    /// Fails, and changes nothing, where the first agent is not there or
    /// holds no such token. Fails too where the second agent is not
    /// there: the token has then left the first and is lost.
    pub fn transfer_token(&mut self, from: &str, to: &str, token_id: &str) -> (r: Result<IToken, HyperTokenError>)
        ensures
            match remove_token_in(old(self).agents(), from@, token_id@) {
                Some((a1, t)) => match add_token_in(a1, to@, t) {
                    Some(a2) => r is Ok && r->Ok_0@ == t && final(self).agents() == a2,
                    None => r is Err && r->Err_0 is InvalidOperation && final(self).agents() == a1,
                },
                None => r is Err && r->Err_0 is InvalidOperation && final(self).agents() == old(self).agents(),
            },
    {
        let token = self.remove_token(from, token_id)?;
        let copy = token.deep_clone();
        self.add_token(to, token)?;
        Ok(copy)
    }

    /// What is stolen where `amount` is asked of an agent that has `available`.
    pub open spec fn loot(available: i64, amount: i64) -> i64 {
        if available < amount {
            available
        } else {
            amount
        }
    }

    /// Moves up to `amount` of a resource from one agent to another, as
    /// much as the first has, and says what was moved and what each then
    /// has. Fails, and changes nothing, where the first agent is not
    /// there or nothing can be moved. Fails too where the second agent is
    /// not there: what was taken is then lost.
    pub fn steal_resource(&mut self, from: &str, to: &str, resource: &str, amount: i64) -> (r: Result<
        StealReceipt,
        HyperTokenError,
    >)
        ensures
            ({
                let agents = old(self).agents();
                let stolen = Self::loot(amount_of(agent_named(agents, from@).resources, resource@), amount);
                if !has_agent(agents, from@) || stolen == 0 {
                    r is Err && r->Err_0 is InvalidOperation && final(self).agents() == agents
                } else {
                    let a1 = take_in(agents, from@, resource@, stolen)->0;
                    match give_in(a1, to@, resource@, stolen) {
                        Some(a2) => r is Ok && final(self).agents() == a2 && r->Ok_0.stolen == stolen
                            && r->Ok_0.from_remaining == amount_of(agent_named(a2, from@).resources, resource@)
                            && r->Ok_0.to_total == amount_of(agent_named(a2, to@).resources, resource@),
                        None => r is Err && r->Err_0 is InvalidOperation && final(self).agents() == a1,
                    }
                }
            }),
    {
        if self.find(from) >= self.agents.len() {
            return Err(not_found(from));
        }
        let available = self.holding(from, resource);
        let stolen = if available < amount {
            available
        } else {
            amount
        };
        if stolen == 0 {
            return Err(invalid("Agent has nothing to steal: ", from));
        }
        self.take_resource(from, resource, stolen)?;
        self.give_resource(to, resource, stolen)?;
        let from_remaining = self.holding(from, resource);
        let to_total = self.holding(to, resource);
        Ok(StealReceipt { stolen, from_remaining, to_total })
    }

    /// Moves a token from one agent to another, as `transfer_token` does.
    pub fn steal_token(&mut self, from: &str, to: &str, token_id: &str) -> (r: Result<IToken, HyperTokenError>)
        ensures
            match remove_token_in(old(self).agents(), from@, token_id@) {
                Some((a1, t)) => match add_token_in(a1, to@, t) {
                    Some(a2) => r is Ok && r->Ok_0@ == t && final(self).agents() == a2,
                    None => r is Err && r->Err_0 is InvalidOperation && final(self).agents() == a1,
                },
                None => r is Err && r->Err_0 is InvalidOperation && final(self).agents() == old(self).agents(),
            },
    {
        self.transfer_token(from, to, token_id)
    }

    /// Copies of all agents, in the order in which they were made.
    pub fn get_all_agents(&self) -> (r: Result<Vec<AgentState>, HyperTokenError>)
        ensures
            r is Ok,
            r->Ok_0@.map_values(|a: AgentState| a@) == self.agents().map_values(|e: (Seq<char>, AgentView)| e.1),
    {
        let ghost want = self.agents().map_values(|e: (Seq<char>, AgentView)| e.1);
        let mut out: Vec<AgentState> = Vec::new();
        let mut i: usize = 0;
        proof {
            assert(out@.map_values(|a: AgentState| a@) =~= want.take(0));
        }
        while i < self.agents.len()
            invariant
                0 <= i <= self.agents.len(),
                want == self.agents().map_values(|e: (Seq<char>, AgentView)| e.1),
                out@.map_values(|a: AgentState| a@) == want.take(i as int),
            decreases self.agents.len() - i,
        {
            let ghost before = out@;
            let copy = copy_agent(&self.agents[i].1);
            out.push(copy);
            proof {
                assert(out@.map_values(|a: AgentState| a@) =~= before.map_values(|a: AgentState| a@).push(copy@));
                assert(want[i as int] == self.agents[i as int].1@);
                assert(want.take(i + 1) =~= want.take(i as int).push(want[i as int]));
            }
            i = i + 1;
        }
        proof {
            assert(want.take(self.agents.len() as int) =~= want);
        }
        Ok(out)
    }

    /// Whether the agent `name` has what it offers.
    fn check_offer(&self, name: &str, offer: &TradeOffer) -> (r: bool)
        requires
            has_agent(self.agents(), name@),
        ensures
            r == can_offer(agent_named(self.agents(), name@), offer@),
    {
        let i = self.find(name);
        match &offer.resource {
            Some(res) => {
                let amt = match offer.amount {
                    Some(a) => a,
                    None => 1,
                };
                amount_in(&self.agents[i].1.resources, res.as_str()) >= amt
            },
            None => match &offer.token {
                Some(tid) => Self::find_token(&self.agents[i].1.inventory, tid.as_str()) < self.agents[i].1.inventory.len(),
                None => true,
            },
        }
    }

    /// Lets `from` hand what it offers to `to`. It succeeds where both are
    /// there and, if a token is offered, `from` holds it.
    fn hand_over(&mut self, from: &str, to: &str, offer: &TradeOffer) -> (r: Result<(), HyperTokenError>)
        ensures
            final(self).agents() == handed_over(old(self).agents(), from@, to@, offer@),
            agent_names(final(self).agents()) == agent_names(old(self).agents()),
            has_agent(old(self).agents(), from@) && has_agent(old(self).agents(), to@) && (offer@.resource is None
                && offer@.token is Some ==> holds_token(agent_named(old(self).agents(), from@), offer@.token->0))
                ==> r is Ok,
            r is Err ==> r->Err_0 is InvalidOperation,
    {
        match &offer.resource {
            Some(res) => {
                let amt = match offer.amount {
                    Some(a) => a,
                    None => 1,
                };
                self.take_resource(from, res.as_str(), amt)?;
                self.give_resource(to, res.as_str(), amt)?;
            },
            None => match &offer.token {
                Some(tid) => {
                    let token = self.remove_token(from, tid.as_str())?;
                    self.add_token(to, token)?;
                },
                None => {},
            },
        }
        Ok(())
    }

    /// Two agents trade: each hands the other what it offers, the first
    /// agent first. Fails, and changes nothing, where an agent is not
    /// there or does not have what it offers.
    pub fn trade(&mut self, agent1_name: &str, offer1: &TradeOffer, agent2_name: &str, offer2: &TradeOffer) -> (r:
        Result<(), HyperTokenError>)
        ensures
            ({
                let agents = old(self).agents();
                if !has_agent(agents, agent1_name@) || !can_offer(agent_named(agents, agent1_name@), offer1@)
                    || !has_agent(agents, agent2_name@) || !can_offer(agent_named(agents, agent2_name@), offer2@) {
                    r is Err && r->Err_0 is InvalidOperation && final(self).agents() == agents
                } else {
                    r is Ok && final(self).agents() == handed_over(
                        handed_over(agents, agent1_name@, agent2_name@, offer1@),
                        agent2_name@,
                        agent1_name@,
                        offer2@,
                    )
                }
            }),
    {
        let ghost agents = self.agents();
        proof {
            if has_agent(agents, agent1_name@) && has_agent(agents, agent2_name@) && can_offer(
                agent_named(agents, agent1_name@),
                offer1@,
            ) && offer2@.resource is None && offer2@.token is Some && holds_token(
                agent_named(agents, agent2_name@),
                offer2@.token->0,
            ) {
                lemma_still_holds(agents, agent1_name@, agent2_name@, offer1@, offer2@.token->0);
            }
        }
        if self.find(agent1_name) >= self.agents.len() {
            return Err(not_found(agent1_name));
        }
        if !self.check_offer(agent1_name, offer1) {
            return Err(invalid("Agent does not have what it offers: ", agent1_name));
        }
        if self.find(agent2_name) >= self.agents.len() {
            return Err(not_found(agent2_name));
        }
        if !self.check_offer(agent2_name, offer2) {
            return Err(invalid("Agent does not have what it offers: ", agent2_name));
        }
        self.hand_over(agent1_name, agent2_name, offer1)?;
        self.hand_over(agent2_name, agent1_name, offer2)
    }
}

impl Default for AgentManager {
    fn default() -> (r: AgentManager)
        ensures
            r.agents().len() == 0,
    {
        AgentManager::new()
    }
}

} // verus!
