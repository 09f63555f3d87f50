//! Quests as the data files describe them: information, requirements to
//! start and complete, and the actions run on starting and completing.
use crate::maple;
use crate::nx::{
    child, integer_of, spec_child, spec_integer, spec_text, str_equal, text_or_default, NxNode,
};
use std::collections::HashSet;
use vstd::prelude::*;

verus! {

// ---------------------------------------------------------------------------
// Actions
// ---------------------------------------------------------------------------

#[derive(Debug)]
pub struct ExpAction {
    pub exp: i32,
}

#[derive(Debug)]
pub struct MesoAction {
    pub mesos: i32,
}

#[derive(Debug)]
pub struct ItemAction {
    pub items: Vec<ItemActionEntry>,
}

#[derive(Debug)]
pub struct ItemActionEntry {
    pub name: String,
    pub id: i32,
    pub count: i32,
    pub period: i32,
    pub prop: i32,
    pub gender: i32,
    pub job: i32,
}

#[derive(Debug)]
pub struct SkillAction {
    pub skills: Vec<SkillActionEntry>,
}

#[derive(Debug)]
pub struct SkillActionEntry {
    pub id: i32,
    pub level: i32,
    pub mastery_level: i32,
    pub applicable_jobs: HashSet<i32>,
}

#[derive(Debug)]
pub struct NextQuestAction {
    pub next_quest_id: i32,
}

#[derive(Debug)]
pub struct FameAction {
    pub fame: i32,
}

#[derive(Debug)]
pub struct BuffAction {
    pub item_effect: i32,
}

#[derive(Debug)]
pub struct PetSkillAction {
    pub pet_skill: i32,
}

#[derive(Debug)]
pub struct PetTamenessAction {
    pub tameness: i32,
}

#[derive(Debug)]
pub struct PetSpeedAction;

#[derive(Debug)]
pub struct InfoAction {
    pub info: String,
}

/// An action a quest runs when it starts or completes.
#[derive(Debug)]
pub enum QuestActionType {
    Exp(ExpAction),
    Meso(MesoAction),
    Item(ItemAction),
    Skill(SkillAction),
    NextQuest(NextQuestAction),
    Fame(FameAction),
    Buff(BuffAction),
    PetSkill(PetSkillAction),
    PetTameness(PetTamenessAction),
    PetSpeed(PetSpeedAction),
    Info(InfoAction),
    Undefined(String),
}

/// The integer a node holds, truncated to 32 bits, if it holds one.
pub open spec fn node_i32(node: NxNode) -> Option<i32> {
    match spec_integer(Some(node)) {
        Some(v) => Some(v as i32),
        None => None,
    }
}

/// The integer under `name`, truncated to 32 bits, or `default`.
pub open spec fn child_i32_or(node: NxNode, name: Seq<char>, default: i32) -> i32 {
    match spec_integer(spec_child(Some(node), name)) {
        Some(v) => v as i32,
        None => default,
    }
}

/// The integer under `name`, truncated to 32 bits, if there is one.
pub open spec fn child_i32(node: NxNode, name: Seq<char>) -> Option<i32> {
    match spec_integer(spec_child(Some(node), name)) {
        Some(v) => Some(v as i32),
        None => None,
    }
}

fn read_i32(node: &NxNode) -> (v: Option<i32>)
    ensures
        v == node_i32(*node),
{
    match node.integer() {
        Some(v) => Some(v as i32),
        None => None,
    }
}

fn read_child_i32(node: &NxNode, name: &str) -> (v: Option<i32>)
    ensures
        v == child_i32(*node, name@),
{
    match integer_of(node.get(name)) {
        Some(v) => Some(v as i32),
        None => None,
    }
}

fn read_child_i32_or(node: &NxNode, name: &str, default: i32) -> (v: i32)
    ensures
        v == child_i32_or(*node, name@, default),
{
    match integer_of(node.get(name)) {
        Some(v) => v as i32,
        None => default,
    }
}

impl ExpAction {
    /// The action a data node describes; the node must hold its value.
    pub fn new(data: &NxNode) -> (action: Self)
        requires
            node_i32(*data) is Some,
        ensures
            node_i32(*data) == Some(action.exp),
    {
        Self::try_new(data).unwrap()
    }

    /// `None` when the node holds no integer (the data is malformed).
    fn try_new(data: &NxNode) -> (action: Option<Self>)
        ensures
            action matches Some(a) ==> node_i32(*data) == Some(a.exp),
            action is None <==> node_i32(*data) is None,
    {
        match read_i32(data) {
            Some(exp) => Some(Self { exp }),
            None => None,
        }
    }

    pub fn execute(&self, character: &maple::Character) {
    }
}

impl MesoAction {
    /// The action a data node describes; the node must hold its value.
    pub fn new(data: &NxNode) -> (action: Self)
        requires
            node_i32(*data) is Some,
        ensures
            node_i32(*data) == Some(action.mesos),
    {
        Self::try_new(data).unwrap()
    }

    /// `None` when the node holds no integer (the data is malformed).
    fn try_new(data: &NxNode) -> (action: Option<Self>)
        ensures
            action matches Some(a) ==> node_i32(*data) == Some(a.mesos),
            action is None <==> node_i32(*data) is None,
    {
        match read_i32(data) {
            Some(mesos) => Some(Self { mesos }),
            None => None,
        }
    }

    pub fn execute(&self, character: &maple::Character) {
    }
}

/// The item entry a node describes: its name; id, count and period (all
/// required); prop (-1), gender (2) and job (-1) when missing.
pub open spec fn item_entry_matches(node: NxNode, e: ItemActionEntry) -> bool {
    &&& e.name@ == node.name@
    &&& child_i32(node, "id"@) == Some(e.id)
    &&& child_i32(node, "count"@) == Some(e.count)
    &&& child_i32(node, "period"@) == Some(e.period)
    &&& e.prop == child_i32_or(node, "prop"@, -1i32)
    &&& e.gender == child_i32_or(node, "gender"@, 2)
    &&& e.job == child_i32_or(node, "job"@, -1i32)
}

/// The node describes an item entry: id, count and period are there.
pub open spec fn item_entry_present(node: NxNode) -> bool {
    child_i32(node, "id"@) is Some && child_i32(node, "count"@) is Some && child_i32(
        node,
        "period"@,
    ) is Some
}

impl ItemAction {
    /// One entry per child, each of which must be complete.
    pub fn new(data: &NxNode) -> (action: Self)
        requires
            forall|i: int|
                0 <= i < data.children@.len() ==> #[trigger] item_entry_present(data.children@[i]),
        ensures
            action.items@.len() == data.children@.len(),
            forall|i: int|
                0 <= i < action.items@.len() ==> #[trigger] item_entry_matches(data.children@[i], action.items@[i]),
    {
        Self::try_new(data).unwrap()
    }

    /// One entry per child; `None` when a child lacks its id, count or period.
    fn try_new(data: &NxNode) -> (action: Option<Self>)
        ensures
            action is Some <==> forall|i: int|
                0 <= i < data.children@.len() ==> #[trigger] item_entry_present(data.children@[i]),
            action matches Some(a) ==> a.items@.len() == data.children@.len() && forall|i: int|
                0 <= i < a.items@.len() ==> #[trigger] item_entry_matches(
                    data.children@[i],
                    a.items@[i],
                ),
    {
        let mut items: Vec<ItemActionEntry> = Vec::new();
        let n = data.children.len();
        let mut i: usize = 0;
        while i < n
            invariant
                n == data.children@.len(),
                i <= n,
                items@.len() == i,
                forall|k: int| 0 <= k < i ==> #[trigger] item_entry_present(data.children@[k]),
                forall|k: int|
                    0 <= k < i ==> #[trigger] item_entry_matches(data.children@[k], items@[k]),
            decreases n - i,
        {
            let item = &data.children[i];
            let id = read_child_i32(item, "id");
            let count = read_child_i32(item, "count");
            let period = read_child_i32(item, "period");
            if id.is_none() || count.is_none() || period.is_none() {
                proof {
                    assert(!item_entry_present(data.children@[i as int]));
                }
                return None;
            }
            let id = id.unwrap();
            let count = count.unwrap();
            let period = period.unwrap();
            items.push(
                ItemActionEntry {
                    name: item.name.clone(),
                    id,
                    count,
                    period,
                    prop: read_child_i32_or(item, "prop", -1),
                    gender: read_child_i32_or(item, "gender", 2),
                    job: read_child_i32_or(item, "job", -1),
                },
            );
            i += 1;
        }
        Some(Self { items })
    }

    pub fn execute(&self, character: &maple::Character, selection: Option<i16>) {
    }
}

/// The skill entry a node describes: its id (required), skill level and
/// master level (0 when missing), and the jobs listed under `job` (each
/// required to be an integer).
pub open spec fn skill_entry_matches(node: NxNode, e: SkillActionEntry) -> bool {
    &&& child_i32(node, "id"@) == Some(e.id)
    &&& e.level == child_i32_or(node, "skillLevel"@, 0)
    &&& e.mastery_level == child_i32_or(node, "masterLevel"@, 0)
    &&& e.applicable_jobs@ == skill_jobs(node)
}

/// The jobs listed under a skill entry's `job` child.
pub open spec fn skill_jobs(node: NxNode) -> Set<i32> {
    match spec_child(Some(node), "job"@) {
        None => Set::empty(),
        Some(jobs) => Set::new(
            |j: i32|
                exists|k: int|
                    0 <= k < jobs.children@.len() && node_i32(#[trigger] jobs.children@[k]) == Some(j),
        ),
    }
}

/// The node describes a skill entry: the id is there, and every listed job is an integer.
pub open spec fn skill_entry_present(node: NxNode) -> bool {
    &&& child_i32(node, "id"@) is Some
    &&& spec_child(Some(node), "job"@) matches Some(jobs) ==> forall|k: int|
        0 <= k < jobs.children@.len() ==> #[trigger] node_i32(jobs.children@[k]) is Some
}

fn read_jobs(jobs: &NxNode) -> (set: Option<HashSet<i32>>)
    ensures
        set is Some <==> forall|k: int|
            0 <= k < jobs.children@.len() ==> #[trigger] node_i32(jobs.children@[k]) is Some,
        set matches Some(s) ==> s@ == Set::new(
            |j: i32|
                exists|k: int|
                    0 <= k < jobs.children@.len() && node_i32(#[trigger] jobs.children@[k]) == Some(j),
        ),
{
    broadcast use vstd::std_specs::hash::group_hash_axioms;

    let mut set: HashSet<i32> = HashSet::new();
    let n = jobs.children.len();
    let mut i: usize = 0;
    while i < n
        invariant
            n == jobs.children@.len(),
            i <= n,
            forall|k: int| 0 <= k < i ==> #[trigger] node_i32(jobs.children@[k]) is Some,
            set@ == Set::new(
                |j: i32|
                    exists|k: int| 0 <= k < i && node_i32(#[trigger] jobs.children@[k]) == Some(j),
            ),
        decreases n - i,
    {
        let job = match read_i32(&jobs.children[i]) {
            Some(job) => job,
            None => {
                return None;
            },
        };
        set.insert(job);
        proof {
            assert(node_i32(jobs.children@[i as int]) == Some(job));
            assert(set@ =~= Set::new(
                |j: i32|
                    exists|k: int|
                        0 <= k < i + 1 && node_i32(#[trigger] jobs.children@[k]) == Some(j),
            ));
        }
        i += 1;
    }
    proof {
        assert(set@ =~= Set::new(
            |j: i32|
                exists|k: int|
                    0 <= k < jobs.children@.len() && node_i32(#[trigger] jobs.children@[k]) == Some(
                        j,
                    ),
        ));
    }
    Some(set)
}

impl SkillAction {
    /// One entry per child; `None` when a child lacks its id or lists a job
    /// One entry per child, each of which must be complete.
    pub fn new(data: &NxNode) -> (action: Self)
        requires
            forall|i: int|
                0 <= i < data.children@.len() ==> #[trigger] skill_entry_present(data.children@[i]),
        ensures
            action.skills@.len() == data.children@.len(),
            forall|i: int|
                0 <= i < action.skills@.len() ==> #[trigger] skill_entry_matches(data.children@[i], action.skills@[i]),
    {
        Self::try_new(data).unwrap()
    }

    /// that is not an integer.
    fn try_new(data: &NxNode) -> (action: Option<Self>)
        ensures
            action is Some <==> forall|i: int|
                0 <= i < data.children@.len() ==> #[trigger] skill_entry_present(data.children@[i]),
            action matches Some(a) ==> a.skills@.len() == data.children@.len() && forall|i: int|
                0 <= i < a.skills@.len() ==> #[trigger] skill_entry_matches(
                    data.children@[i],
                    a.skills@[i],
                ),
    {
        let mut skills: Vec<SkillActionEntry> = Vec::new();
        let n = data.children.len();
        let mut i: usize = 0;
        while i < n
            invariant
                n == data.children@.len(),
                i <= n,
                skills@.len() == i,
                forall|k: int| 0 <= k < i ==> #[trigger] skill_entry_present(data.children@[k]),
                forall|k: int|
                    0 <= k < i ==> #[trigger] skill_entry_matches(data.children@[k], skills@[k]),
            decreases n - i,
        {
            let skill = &data.children[i];
            let applicable_jobs = match skill.get("job") {
                Some(jobs) => match read_jobs(jobs) {
                    Some(set) => set,
                    None => {
                        proof {
                            assert(!skill_entry_present(data.children@[i as int]));
                        }
                        return None;
                    },
                },
                None => HashSet::new(),
            };
            let id = match read_child_i32(skill, "id") {
                Some(v) => v,
                None => {
                    proof {
                        assert(!skill_entry_present(data.children@[i as int]));
                    }
                    return None;
                },
            };
            proof {
                if spec_child(Some(*skill), "job"@) is None {
                    assert(applicable_jobs@ =~= Set::<i32>::empty());
                }
            }
            skills.push(
                SkillActionEntry {
                    id,
                    level: read_child_i32_or(skill, "skillLevel", 0),
                    mastery_level: read_child_i32_or(skill, "masterLevel", 0),
                    applicable_jobs,
                },
            );
            i += 1;
        }
        Some(Self { skills })
    }

    pub fn execute(&self, character: &maple::Character) {
    }
}

impl NextQuestAction {
    /// The action a data node describes; the node must hold its value.
    pub fn new(data: &NxNode) -> (action: Self)
        requires
            node_i32(*data) is Some,
        ensures
            node_i32(*data) == Some(action.next_quest_id),
    {
        Self::try_new(data).unwrap()
    }

    /// `None` when the node holds no integer (the data is malformed).
    fn try_new(data: &NxNode) -> (action: Option<Self>)
        ensures
            action matches Some(a) ==> node_i32(*data) == Some(a.next_quest_id),
            action is None <==> node_i32(*data) is None,
    {
        match read_i32(data) {
            Some(next_quest_id) => Some(Self { next_quest_id }),
            None => None,
        }
    }

    pub fn execute(&self, character: &maple::Character) {
    }
}

impl FameAction {
    /// The action a data node describes; the node must hold its value.
    pub fn new(data: &NxNode) -> (action: Self)
        requires
            node_i32(*data) is Some,
        ensures
            node_i32(*data) == Some(action.fame),
    {
        Self::try_new(data).unwrap()
    }

    /// `None` when the node holds no integer (the data is malformed).
    fn try_new(data: &NxNode) -> (action: Option<Self>)
        ensures
            action matches Some(a) ==> node_i32(*data) == Some(a.fame),
            action is None <==> node_i32(*data) is None,
    {
        match read_i32(data) {
            Some(fame) => Some(Self { fame }),
            None => None,
        }
    }

    pub fn execute(&self, character: &maple::Character) {
    }
}

impl BuffAction {
    /// The action a data node describes; the node must hold its value.
    pub fn new(data: &NxNode) -> (action: Self)
        requires
            node_i32(*data) is Some,
        ensures
            node_i32(*data) == Some(action.item_effect),
    {
        Self::try_new(data).unwrap()
    }

    /// `None` when the node holds no integer (the data is malformed).
    fn try_new(data: &NxNode) -> (action: Option<Self>)
        ensures
            action matches Some(a) ==> node_i32(*data) == Some(a.item_effect),
            action is None <==> node_i32(*data) is None,
    {
        match read_i32(data) {
            Some(item_effect) => Some(Self { item_effect }),
            None => None,
        }
    }

    pub fn execute(&self, character: &maple::Character) {
    }
}

impl PetSkillAction {
    /// The action a data node describes; the node must hold its value.
    pub fn new(data: &NxNode) -> (action: Self)
        requires
            child_i32(*data, "petskill"@) is Some,
        ensures
            child_i32(*data, "petskill"@) == Some(action.pet_skill),
    {
        Self::try_new(data).unwrap()
    }

    /// Reads the `petskill` child; `None` when it holds no integer.
    fn try_new(data: &NxNode) -> (action: Option<Self>)
        ensures
            action matches Some(a) ==> child_i32(*data, "petskill"@) == Some(a.pet_skill),
            action is None <==> child_i32(*data, "petskill"@) is None,
    {
        match read_child_i32(data, "petskill") {
            Some(pet_skill) => Some(Self { pet_skill }),
            None => None,
        }
    }

    pub fn execute(&self, character: &maple::Character) {
    }
}

impl PetTamenessAction {
    /// The action a data node describes; the node must hold its value.
    pub fn new(data: &NxNode) -> (action: Self)
        requires
            node_i32(*data) is Some,
        ensures
            node_i32(*data) == Some(action.tameness),
    {
        Self::try_new(data).unwrap()
    }

    /// `None` when the node holds no integer (the data is malformed).
    fn try_new(data: &NxNode) -> (action: Option<Self>)
        ensures
            action matches Some(a) ==> node_i32(*data) == Some(a.tameness),
            action is None <==> node_i32(*data) is None,
    {
        match read_i32(data) {
            Some(tameness) => Some(Self { tameness }),
            None => None,
        }
    }

    pub fn execute(&self, character: &maple::Character) {
    }
}

impl PetSpeedAction {
    pub fn execute(&self, character: &maple::Character) {
    }
}

impl InfoAction {
    /// The action a data node describes; the node must hold a text.
    pub fn new(data: &NxNode) -> (action: Self)
        requires
            spec_text(Some(*data)) is Some,
        ensures
            spec_text(Some(*data)) == Some(action.info@),
    {
        Self::try_new(data).unwrap()
    }

    /// `None` when the node holds no text (the data is malformed).
    fn try_new(data: &NxNode) -> (action: Option<Self>)
        ensures
            action matches Some(a) ==> spec_text(Some(*data)) == Some(a.info@),
            action is None <==> spec_text(Some(*data)) is None,
    {
        match data.string() {
            Some(info) => Some(Self { info: info.to_owned() }),
            None => None,
        }
    }

    pub fn execute(&self, character: &maple::Character) {
    }
}

/// The action a data node describes, by its name: `exp`, `money`, `item`,
/// `skill`, `nextQuest`, `pop` (fame), `buffItemID`, `petSkill`,
/// `pettameness`, `petspeed`, `info`; any other name is kept as undefined.
pub open spec fn action_matches(node: NxNode, a: QuestActionType) -> bool {
    let n = node.name@;
    if n == "exp"@ {
        a matches QuestActionType::Exp(x) && node_i32(node) == Some(x.exp)
    } else if n == "money"@ {
        a matches QuestActionType::Meso(x) && node_i32(node) == Some(x.mesos)
    } else if n == "item"@ {
        a matches QuestActionType::Item(x) && x.items@.len() == node.children@.len() && forall|
            i: int,
        | 0 <= i < x.items@.len() ==> #[trigger] item_entry_matches(node.children@[i], x.items@[i])
    } else if n == "skill"@ {
        a matches QuestActionType::Skill(x) && x.skills@.len() == node.children@.len() && forall|
            i: int,
        |
            0 <= i < x.skills@.len() ==> #[trigger] skill_entry_matches(
                node.children@[i],
                x.skills@[i],
            )
    } else if n == "nextQuest"@ {
        a matches QuestActionType::NextQuest(x) && node_i32(node) == Some(x.next_quest_id)
    } else if n == "pop"@ {
        a matches QuestActionType::Fame(x) && node_i32(node) == Some(x.fame)
    } else if n == "buffItemID"@ {
        a matches QuestActionType::Buff(x) && node_i32(node) == Some(x.item_effect)
    } else if n == "petSkill"@ {
        a matches QuestActionType::PetSkill(x) && child_i32(node, "petskill"@) == Some(x.pet_skill)
    } else if n == "pettameness"@ {
        a matches QuestActionType::PetTameness(x) && node_i32(node) == Some(x.tameness)
    } else if n == "petspeed"@ {
        a matches QuestActionType::PetSpeed(_)
    } else if n == "info"@ {
        a matches QuestActionType::Info(x) && spec_text(Some(node)) == Some(x.info@)
    } else {
        a matches QuestActionType::Undefined(name) && name@ == n
    }
}

/// The node holds what its action needs.
pub open spec fn action_present(node: NxNode) -> bool {
    let n = node.name@;
    if n == "exp"@ {
        node_i32(node) is Some
    } else if n == "money"@ {
        node_i32(node) is Some
    } else if n == "item"@ {
        forall|i: int|
            0 <= i < node.children@.len() ==> #[trigger] item_entry_present(node.children@[i])
    } else if n == "skill"@ {
        forall|i: int|
            0 <= i < node.children@.len() ==> #[trigger] skill_entry_present(node.children@[i])
    } else if n == "nextQuest"@ {
        node_i32(node) is Some
    } else if n == "pop"@ {
        node_i32(node) is Some
    } else if n == "buffItemID"@ {
        node_i32(node) is Some
    } else if n == "petSkill"@ {
        child_i32(node, "petskill"@) is Some
    } else if n == "pettameness"@ {
        node_i32(node) is Some
    } else if n == "petspeed"@ {
        true
    } else if n == "info"@ {
        spec_text(Some(node)) is Some
    } else {
        true
    }
}

impl QuestActionType {
    /// The action a data node describes; `None` when the node lacks what the
    /// action needs (the data is malformed).
    fn try_load(action: &NxNode) -> (loaded: Option<Self>)
        ensures
            loaded is Some <==> action_present(*action),
            loaded matches Some(a) ==> action_matches(*action, a),
    {
        let name = action.name.as_str();
        if str_equal(name, "exp") {
            match ExpAction::try_new(action) {
                Some(a) => Some(QuestActionType::Exp(a)),
                None => None,
            }
        } else if str_equal(name, "money") {
            match MesoAction::try_new(action) {
                Some(a) => Some(QuestActionType::Meso(a)),
                None => None,
            }
        } else if str_equal(name, "item") {
            match ItemAction::try_new(action) {
                Some(a) => Some(QuestActionType::Item(a)),
                None => None,
            }
        } else if str_equal(name, "skill") {
            match SkillAction::try_new(action) {
                Some(a) => Some(QuestActionType::Skill(a)),
                None => None,
            }
        } else if str_equal(name, "nextQuest") {
            match NextQuestAction::try_new(action) {
                Some(a) => Some(QuestActionType::NextQuest(a)),
                None => None,
            }
        } else if str_equal(name, "pop") {
            match FameAction::try_new(action) {
                Some(a) => Some(QuestActionType::Fame(a)),
                None => None,
            }
        } else if str_equal(name, "buffItemID") {
            match BuffAction::try_new(action) {
                Some(a) => Some(QuestActionType::Buff(a)),
                None => None,
            }
        } else if str_equal(name, "petSkill") {
            match PetSkillAction::try_new(action) {
                Some(a) => Some(QuestActionType::PetSkill(a)),
                None => None,
            }
        } else if str_equal(name, "pettameness") {
            match PetTamenessAction::try_new(action) {
                Some(a) => Some(QuestActionType::PetTameness(a)),
                None => None,
            }
        } else if str_equal(name, "petspeed") {
            Some(QuestActionType::PetSpeed(PetSpeedAction))
        } else if str_equal(name, "info") {
            match InfoAction::try_new(action) {
                Some(a) => Some(QuestActionType::Info(a)),
                None => None,
            }
        } else {
            Some(QuestActionType::Undefined(name.to_owned()))
        }
    }

    /// The actions under a node, one per child in order; each child must hold
    /// what its action needs.
    pub fn load_all(root: &NxNode) -> (actions: Vec<Self>)
        requires
            forall|i: int|
                0 <= i < root.children@.len() ==> #[trigger] action_present(root.children@[i]),
        ensures
            actions@.len() == root.children@.len(),
            forall|i: int|
                0 <= i < actions@.len() ==> #[trigger] action_matches(root.children@[i], actions@[i]),
    {
        Self::try_load_all(root).unwrap()
    }

    /// The actions under a node, one per child in order; `None` when a child is malformed.
    fn try_load_all(root: &NxNode) -> (actions: Option<Vec<Self>>)
        ensures
            actions is Some <==> forall|i: int|
                0 <= i < root.children@.len() ==> #[trigger] action_present(root.children@[i]),
            actions matches Some(v) ==> v@.len() == root.children@.len() && forall|i: int|
                0 <= i < v@.len() ==> #[trigger] action_matches(root.children@[i], v@[i]),
    {
        let mut actions: Vec<Self> = Vec::new();
        let n = root.children.len();
        let mut i: usize = 0;
        while i < n
            invariant
                n == root.children@.len(),
                i <= n,
                actions@.len() == i,
                forall|k: int| 0 <= k < i ==> #[trigger] action_present(root.children@[k]),
                forall|k: int|
                    0 <= k < i ==> #[trigger] action_matches(root.children@[k], actions@[k]),
            decreases n - i,
        {
            match Self::try_load(&root.children[i]) {
                Some(a) => actions.push(a),
                None => {
                    proof {
                        assert(!action_present(root.children@[i as int]));
                    }
                    return None;
                },
            }
            i += 1;
        }
        Some(actions)
    }

    /// Runs the action for the character (the actions do not change the character yet).
    pub fn execute(&self, character: &maple::Character, selection: Option<i16>) {
        match self {
            QuestActionType::Exp(action) => action.execute(character),
            QuestActionType::Meso(action) => action.execute(character),
            QuestActionType::Item(action) => action.execute(character, selection),
            QuestActionType::Skill(action) => action.execute(character),
            QuestActionType::NextQuest(action) => action.execute(character),
            QuestActionType::Fame(action) => action.execute(character),
            QuestActionType::Buff(action) => action.execute(character),
            QuestActionType::PetSkill(action) => action.execute(character),
            QuestActionType::PetTameness(action) => action.execute(character),
            QuestActionType::PetSpeed(action) => action.execute(character),
            QuestActionType::Info(action) => action.execute(character),
            QuestActionType::Undefined(_) => {},
        }
    }

    /// Whether the action can run for the character: every action can.
    pub fn can_execute(&self, character: &maple::Character, selection: Option<i16>) -> (can: bool)
        ensures
            can,
    {
        true
    }
}

// ---------------------------------------------------------------------------
// Requirements
// ---------------------------------------------------------------------------

/// A requirement a character must meet to start or complete a quest.
#[derive(Debug)]
pub enum QuestRequirementType {
    /// The quest can be repeated after this many minutes.
    Interval(i32),
    /// The quest is started or completed through this NPC.
    Npc(i32),
    /// A requirement kind the server does not check yet (its data name).
    Undefined(String),
}

/// The requirement a data node describes, by its name: `interval`, `npc`,
/// any other name kept as unchecked.
pub open spec fn requirement_matches(node: NxNode, r: QuestRequirementType) -> bool {
    let n = node.name@;
    if n == "interval"@ {
        r matches QuestRequirementType::Interval(v) && node_i32(node) == Some(v)
    } else if n == "npc"@ {
        r matches QuestRequirementType::Npc(v) && node_i32(node) == Some(v)
    } else {
        r matches QuestRequirementType::Undefined(name) && name@ == n
    }
}

/// The node holds what its requirement needs.
pub open spec fn requirement_present(node: NxNode) -> bool {
    let n = node.name@;
    if n == "interval"@ {
        node_i32(node) is Some
    } else if n == "npc"@ {
        node_i32(node) is Some
    } else {
        true
    }
}

/// Whether a character meets a requirement when talking to `npc_id`.
pub open spec fn spec_has_requirement(r: QuestRequirementType, npc_id: i32) -> bool {
    match r {
        QuestRequirementType::Npc(id) => id == npc_id,
        _ => true,
    }
}

/// All requirements are met.
pub open spec fn all_requirements_met(reqs: Seq<QuestRequirementType>, npc_id: i32) -> bool {
    forall|i: int| 0 <= i < reqs.len() ==> #[trigger] spec_has_requirement(reqs[i], npc_id)
}

impl QuestRequirementType {
    /// The requirement a data node describes; `None` when the node lacks the
    /// value its requirement needs.
    fn try_load(node: &NxNode) -> (loaded: Option<Self>)
        ensures
            loaded is Some <==> requirement_present(*node),
            loaded matches Some(r) ==> requirement_matches(*node, r),
    {
        let name = node.name.as_str();
        if str_equal(name, "interval") {
            match read_i32(node) {
                Some(v) => Some(QuestRequirementType::Interval(v)),
                None => None,
            }
        } else if str_equal(name, "npc") {
            match read_i32(node) {
                Some(v) => Some(QuestRequirementType::Npc(v)),
                None => None,
            }
        } else {
            Some(QuestRequirementType::Undefined(name.to_owned()))
        }
    }

    /// The requirements under a node, one per child in order; each child must
    /// hold the value its requirement needs.
    pub fn load_all(root: &NxNode) -> (reqs: Vec<Self>)
        requires
            forall|i: int|
                0 <= i < root.children@.len() ==> #[trigger] requirement_present(root.children@[i]),
        ensures
            reqs@.len() == root.children@.len(),
            forall|i: int|
                0 <= i < reqs@.len() ==> #[trigger] requirement_matches(root.children@[i], reqs@[i]),
    {
        Self::try_load_all(root).unwrap()
    }

    /// The requirements under a node, one per child in order; `None` when a child is malformed.
    fn try_load_all(root: &NxNode) -> (reqs: Option<Vec<Self>>)
        ensures
            reqs is Some <==> forall|i: int|
                0 <= i < root.children@.len() ==> #[trigger] requirement_present(root.children@[i]),
            reqs matches Some(v) ==> v@.len() == root.children@.len() && forall|i: int|
                0 <= i < v@.len() ==> #[trigger] requirement_matches(root.children@[i], v@[i]),
    {
        let mut reqs: Vec<Self> = Vec::new();
        let n = root.children.len();
        let mut i: usize = 0;
        while i < n
            invariant
                n == root.children@.len(),
                i <= n,
                reqs@.len() == i,
                forall|k: int| 0 <= k < i ==> #[trigger] requirement_present(root.children@[k]),
                forall|k: int|
                    0 <= k < i ==> #[trigger] requirement_matches(root.children@[k], reqs@[k]),
            decreases n - i,
        {
            match Self::try_load(&root.children[i]) {
                Some(r) => reqs.push(r),
                None => {
                    proof {
                        assert(!requirement_present(root.children@[i as int]));
                    }
                    return None;
                },
            }
            i += 1;
        }
        Some(reqs)
    }

    /// Whether the character meets the requirement when talking to `npc_id`:
    /// an NPC requirement needs that NPC; the other kinds are not checked.
    pub fn has_requirement(&self, character: &maple::Character, npc_id: i32) -> (met: bool)
        ensures
            met == spec_has_requirement(*self, npc_id),
    {
        match self {
            QuestRequirementType::Npc(id) => *id == npc_id,
            _ => true,
        }
    }
}

fn requirements_met(reqs: &Vec<QuestRequirementType>, character: &maple::Character, npc_id: i32) -> (met: bool)
    ensures
        met == all_requirements_met(reqs@, npc_id),
{
    let n = reqs.len();
    let mut i: usize = 0;
    while i < n
        invariant
            n == reqs@.len(),
            i <= n,
            forall|k: int| 0 <= k < i ==> #[trigger] spec_has_requirement(reqs@[k], npc_id),
        decreases n - i,
    {
        if !reqs[i].has_requirement(character, npc_id) {
            return false;
        }
        i += 1;
    }
    true
}

// ---------------------------------------------------------------------------
// Quests
// ---------------------------------------------------------------------------

/// A quest's definition.
#[derive(Debug)]
pub struct Quest {
    pub name: String,
    pub parent: String,
    pub time_limit: i32,
    pub time_limit2: i32,
    pub auto_start: bool,
    pub auto_pre_complete: bool,
    pub auto_complete: bool,
    pub repeatable: bool,
    pub start_requirements: Vec<QuestRequirementType>,
    pub complete_requirements: Vec<QuestRequirementType>,
    pub start_actions: Vec<QuestActionType>,
    pub complete_actions: Vec<QuestActionType>,
}

/// Why a quest could not be loaded.
#[derive(PartialEq, Eq, Structural, Clone, Copy, Debug)]
pub enum QuestLoadError {
    /// There is no information on the quest.
    NoInfo(i16),
}

/// The node of a quest under a section (`QuestInfo.img`, `Check.img`, `Act.img`) of the quest data.
pub open spec fn quest_section(root: NxNode, section: Seq<char>, id: i16) -> Option<NxNode> {
    spec_child(spec_child(Some(root), section), crate::text::decimal(id as int))
}

/// Requirements loaded from an optional list node (none when the node is missing).
pub open spec fn requirements_from(node: Option<NxNode>, reqs: Seq<QuestRequirementType>) -> bool {
    match node {
        None => reqs.len() == 0,
        Some(n) => reqs.len() == n.children@.len() && forall|i: int|
            0 <= i < reqs.len() ==> #[trigger] requirement_matches(n.children@[i], reqs[i]),
    }
}

/// Actions loaded from an optional list node (none when the node is missing).
pub open spec fn actions_from(node: Option<NxNode>, actions: Seq<QuestActionType>) -> bool {
    match node {
        None => actions.len() == 0,
        Some(n) => actions.len() == n.children@.len() && forall|i: int|
            0 <= i < actions.len() ==> #[trigger] action_matches(n.children@[i], actions[i]),
    }
}

/// Every child of an optional list node is a well-formed requirement.
pub open spec fn requirements_present(node: Option<NxNode>) -> bool {
    match node {
        None => true,
        Some(n) => forall|i: int|
            0 <= i < n.children@.len() ==> #[trigger] requirement_present(n.children@[i]),
    }
}

/// Every child of an optional list node is a well-formed action.
pub open spec fn actions_present(node: Option<NxNode>) -> bool {
    match node {
        None => true,
        Some(n) => forall|i: int|
            0 <= i < n.children@.len() ==> #[trigger] action_present(n.children@[i]),
    }
}

/// The quest's requirements and actions are all well formed.
pub open spec fn quest_lists_present(root: NxNode, id: i16) -> bool {
    let check = quest_section(root, "Check.img"@, id);
    let act = quest_section(root, "Act.img"@, id);
    &&& requirements_present(spec_child(check, "0"@))
    &&& requirements_present(spec_child(check, "1"@))
    &&& actions_present(spec_child(act, "0"@))
    &&& actions_present(spec_child(act, "1"@))
}

/// Some start requirement is an interval (the quest can be repeated).
pub open spec fn has_interval(reqs: Seq<QuestRequirementType>) -> bool {
    exists|i: int| 0 <= i < reqs.len() && #[trigger] reqs[i] is Interval
}

fn load_requirements(node: Option<&NxNode>) -> (reqs: Option<Vec<QuestRequirementType>>)
    ensures
        reqs is Some <==> requirements_present(
            match node {
                Some(n) => Some(*n),
                None => None,
            },
        ),
        reqs matches Some(v) ==> requirements_from(
            match node {
                Some(n) => Some(*n),
                None => None,
            },
            v@,
        ),
{
    match node {
        Some(n) => QuestRequirementType::try_load_all(n),
        None => Some(Vec::new()),
    }
}

fn load_actions(node: Option<&NxNode>) -> (actions: Option<Vec<QuestActionType>>)
    ensures
        actions is Some <==> actions_present(
            match node {
                Some(n) => Some(*n),
                None => None,
            },
        ),
        actions matches Some(v) ==> actions_from(
            match node {
                Some(n) => Some(*n),
                None => None,
            },
            v@,
        ),
{
    match node {
        Some(n) => QuestActionType::try_load_all(n),
        None => Some(Vec::new()),
    }
}

fn any_interval(reqs: &Vec<QuestRequirementType>) -> (found: bool)
    ensures
        found == has_interval(reqs@),
{
    let n = reqs.len();
    let mut i: usize = 0;
    while i < n
        invariant
            n == reqs@.len(),
            i <= n,
            forall|k: int| 0 <= k < i ==> !(#[trigger] reqs@[k] is Interval),
        decreases n - i,
    {
        if let QuestRequirementType::Interval(_) = &reqs[i] {
            return true;
        }
        i += 1;
    }
    false
}

impl Quest {
    /// Loads quest `id` from the quest data (the root of the quest data file):
    /// its information under `QuestInfo.img`, its start (`0`) and completion
    /// (`1`) requirements under `Check.img`, and its start and completion
    /// actions under `Act.img`.
    pub fn load(root: &NxNode, id: i16) -> (quest: Result<Self, QuestLoadError>)
        requires
            quest_section(*root, "QuestInfo.img"@, id) is Some ==> quest_lists_present(*root, id),
        ensures
            quest_section(*root, "QuestInfo.img"@, id) is None ==> quest == Err::<Self, QuestLoadError>(QuestLoadError::NoInfo(id)),
            quest_section(*root, "QuestInfo.img"@, id) is Some ==> quest is Ok,
            quest matches Ok(q) ==> {
                let info = quest_section(*root, "QuestInfo.img"@, id);
                let check = quest_section(*root, "Check.img"@, id);
                let act = quest_section(*root, "Act.img"@, id);
                &&& q.name@ == crate::nx::text_or_empty(info, "name"@)
                &&& q.parent@ == crate::nx::text_or_empty(info, "parent"@)
                &&& q.time_limit == crate::nx::int_or(info, "timeLimit"@, 0) as i32
                &&& q.time_limit2 == crate::nx::int_or(info, "timeLimit2"@, 0) as i32
                &&& q.auto_start == (crate::nx::int_or(info, "autoStart"@, 0) == 1)
                &&& q.auto_pre_complete == (crate::nx::int_or(info, "autoPreComplete"@, 0) == 1)
                &&& q.auto_complete == (crate::nx::int_or(info, "autoComplete"@, 0) == 1)
                &&& requirements_from(spec_child(check, "0"@), q.start_requirements@)
                &&& requirements_from(spec_child(check, "1"@), q.complete_requirements@)
                &&& q.repeatable == has_interval(q.start_requirements@)
                &&& actions_from(spec_child(act, "0"@), q.start_actions@)
                &&& actions_from(spec_child(act, "1"@), q.complete_actions@)
            },
    {
        let id_text = crate::text::decimal_string(id as i64);
        let quest_info = child(root.get("QuestInfo.img"), id_text.as_str());
        if quest_info.is_none() {
            return Err(QuestLoadError::NoInfo(id));
        }
        let name = text_or_default(child(quest_info, "name"));
        let parent = text_or_default(child(quest_info, "parent"));
        let time_limit = match integer_of(child(quest_info, "timeLimit")) {
            Some(v) => v,
            None => 0,
        } as i32;
        let time_limit2 = match integer_of(child(quest_info, "timeLimit2")) {
            Some(v) => v,
            None => 0,
        } as i32;
        let auto_start = match integer_of(child(quest_info, "autoStart")) {
            Some(v) => v,
            None => 0,
        } == 1;
        let auto_pre_complete = match integer_of(child(quest_info, "autoPreComplete")) {
            Some(v) => v,
            None => 0,
        } == 1;
        let auto_complete = match integer_of(child(quest_info, "autoComplete")) {
            Some(v) => v,
            None => 0,
        } == 1;
        let requirements_root = child(root.get("Check.img"), id_text.as_str());
        let start_requirements = load_requirements(child(requirements_root, "0")).unwrap();
        let repeatable = any_interval(&start_requirements);
        let complete_requirements = load_requirements(child(requirements_root, "1")).unwrap();
        let actions_root = child(root.get("Act.img"), id_text.as_str());
        let start_actions = load_actions(child(actions_root, "0")).unwrap();
        let complete_actions = load_actions(child(actions_root, "1")).unwrap();
        Ok(
            Self {
                name,
                parent,
                time_limit,
                time_limit2,
                auto_start,
                auto_pre_complete,
                auto_complete,
                repeatable,
                start_requirements,
                complete_requirements,
                start_actions,
                complete_actions,
            },
        )
    }

    /// Whether quest `id` can be loaded: where its information is there, its
    /// requirements and actions hold what they need.
    pub fn loadable(root: &NxNode, id: i16) -> (ok: bool)
        ensures
            ok == (quest_section(*root, "QuestInfo.img"@, id) is Some ==> quest_lists_present(*root, id)),
    {
        let id_text = crate::text::decimal_string(id as i64);
        if child(root.get("QuestInfo.img"), id_text.as_str()).is_none() {
            return true;
        }
        let requirements_root = child(root.get("Check.img"), id_text.as_str());
        let actions_root = child(root.get("Act.img"), id_text.as_str());
        load_requirements(child(requirements_root, "0")).is_some() && load_requirements(
            child(requirements_root, "1"),
        ).is_some() && load_actions(child(actions_root, "0")).is_some() && load_actions(
            child(actions_root, "1"),
        ).is_some()
    }

    /// Starts the quest: `true` when the character meets every start
    /// requirement (talking to `npc_id`) and every start action can run; the
    /// start actions are then run.
    pub fn start(&self, character: &maple::Character, npc_id: i32) -> (started: bool)
        ensures
            started == all_requirements_met(self.start_requirements@, npc_id),
    {
        if !self.can_start(character, npc_id) {
            return false;
        }
        let n = self.start_actions.len();
        let mut i: usize = 0;
        while i < n
            invariant
                n == self.start_actions@.len(),
                i <= n,
            decreases n - i,
        {
            if !self.start_actions[i].can_execute(character, None) {
                return false;
            }
            i += 1;
        }
        let mut i: usize = 0;
        while i < n
            invariant
                n == self.start_actions@.len(),
                i <= n,
            decreases n - i,
        {
            self.start_actions[i].execute(character, None);
            i += 1;
        }
        true
    }

    /// Completes the quest: `true` when the character meets every completion
    /// requirement (talking to `npc_id`) and every completion action can run
    /// with the reward `selection`; the completion actions are then run.
    pub fn complete(&self, character: &maple::Character, npc_id: i32, selection: Option<i16>) -> (completed: bool)
        ensures
            completed == all_requirements_met(self.complete_requirements@, npc_id),
    {
        if !self.can_complete(character, npc_id) {
            return false;
        }
        let n = self.complete_actions.len();
        let mut i: usize = 0;
        while i < n
            invariant
                n == self.complete_actions@.len(),
                i <= n,
            decreases n - i,
        {
            if !self.complete_actions[i].can_execute(character, selection) {
                return false;
            }
            i += 1;
        }
        let mut i: usize = 0;
        while i < n
            invariant
                n == self.complete_actions@.len(),
                i <= n,
            decreases n - i,
        {
            self.complete_actions[i].execute(character, selection);
            i += 1;
        }
        true
    }

    /// Checks if a character can start the current quest
    pub fn can_start(&self, character: &maple::Character, npc_id: i32) -> (can: bool)
        ensures
            can == all_requirements_met(self.start_requirements@, npc_id),
    {
        requirements_met(&self.start_requirements, character, npc_id)
    }

    /// Checks if a character can complete the current quest
    pub fn can_complete(&self, character: &maple::Character, npc_id: i32) -> (can: bool)
        ensures
            can == all_requirements_met(self.complete_requirements@, npc_id),
    {
        requirements_met(&self.complete_requirements, character, npc_id)
    }
}

} // verus!
