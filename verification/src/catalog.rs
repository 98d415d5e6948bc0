//! The game catalog: game definitions, their questions and public summaries.
use vstd::prelude::*;

verus! {

/// How players answer a round.
#[derive(Clone, Copy, Debug, PartialEq, Eq, Structural)]
pub enum ResponseMode {
    PlayerVote,
    Choice,
    Quiz,
}

/// Whether a game awards points.
#[derive(Clone, Copy, Debug, PartialEq, Eq, Structural)]
pub enum GameExperience {
    Competitive,
    Voting,
    Casual,
}

impl GameExperience {
    /// The experience a game has when its definition names none.
    pub fn default_experience() -> (r: GameExperience)
        ensures
            r == GameExperience::Competitive,
    {
        GameExperience::Competitive
    }
}

/// A copy of a list of strings with the same contents.
pub fn clone_strings(v: &Vec<String>) -> (r: Vec<String>)
    ensures
        r.deep_view() == v.deep_view(),
{
    let mut r: Vec<String> = Vec::new();
    let mut i: usize = 0;
    while i < v.len()
        invariant
            i <= v.len(),
            r.deep_view() =~= v.deep_view().subrange(0, i as int),
        decreases v.len() - i,
    {
        let ghost prev = r.deep_view();
        let item = v[i].clone();
        r.push(item);
        assert(r.deep_view() =~= prev.push(v.deep_view()[i as int]));
        i = i + 1;
    }
    assert(v.deep_view().subrange(0, v.len() as int) =~= v.deep_view());
    r
}

#[derive(Debug)]
pub struct Question {
    pub prompt: String,
    pub category: String,
    pub difficulty: String,
    pub options: Vec<String>,
    pub visual_options: Vec<String>,
    pub correct_option: Option<usize>,
}

/// What a question holds, as plain values.
pub struct QuestionView {
    pub prompt: Seq<char>,
    pub category: Seq<char>,
    pub difficulty: Seq<char>,
    pub options: Seq<Seq<char>>,
    pub visual_options: Seq<Seq<char>>,
    pub correct_option: Option<usize>,
}

impl View for Question {
    type V = QuestionView;

    open spec fn view(&self) -> QuestionView {
        QuestionView {
            prompt: self.prompt@,
            category: self.category@,
            difficulty: self.difficulty@,
            options: self.options.deep_view(),
            visual_options: self.visual_options.deep_view(),
            correct_option: self.correct_option,
        }
    }
}

impl DeepView for Question {
    type V = QuestionView;

    open spec fn deep_view(&self) -> QuestionView {
        self@
    }
}

impl Question {
    /// A copy of this question.
    pub fn duplicate(&self) -> (r: Question)
        ensures
            r@ == self@,
    {
        Question {
            prompt: self.prompt.clone(),
            category: self.category.clone(),
            difficulty: self.difficulty.clone(),
            options: clone_strings(&self.options),
            visual_options: clone_strings(&self.visual_options),
            correct_option: self.correct_option,
        }
    }
}

/// The category a question has when its definition names none.
pub fn default_category() -> (r: String)
    ensures
        r@ == "party"@,
{
    String::from_str("party")
}

/// The difficulty a question has when its definition names none.
pub fn default_difficulty() -> (r: String)
    ensures
        r@ == "easy"@,
{
    String::from_str("easy")
}

#[derive(Debug)]
pub struct GameDefinition {
    pub id: String,
    pub title: String,
    pub description: String,
    pub icon: String,
    pub category: String,
    pub estimated_minutes: u8,
    pub response_mode: ResponseMode,
    pub experience: GameExperience,
    pub default_rounds: u8,
    pub min_players: usize,
    pub questions: Vec<Question>,
}

/// What a game definition holds, as plain values.
pub struct GameView {
    pub id: Seq<char>,
    pub title: Seq<char>,
    pub description: Seq<char>,
    pub icon: Seq<char>,
    pub category: Seq<char>,
    pub estimated_minutes: u8,
    pub response_mode: ResponseMode,
    pub experience: GameExperience,
    pub default_rounds: u8,
    pub min_players: usize,
    pub questions: Seq<QuestionView>,
}

impl View for GameDefinition {
    type V = GameView;

    open spec fn view(&self) -> GameView {
        GameView {
            id: self.id@,
            title: self.title@,
            description: self.description@,
            icon: self.icon@,
            category: self.category@,
            estimated_minutes: self.estimated_minutes,
            response_mode: self.response_mode,
            experience: self.experience,
            default_rounds: self.default_rounds,
            min_players: self.min_players,
            questions: self.questions.deep_view(),
        }
    }
}

impl DeepView for GameDefinition {
    type V = GameView;

    open spec fn deep_view(&self) -> GameView {
        self@
    }
}

/// A copy of a list of questions.
pub fn clone_questions(v: &Vec<Question>) -> (r: Vec<Question>)
    ensures
        r.deep_view() == v.deep_view(),
{
    let mut r: Vec<Question> = Vec::new();
    let mut i: usize = 0;
    while i < v.len()
        invariant
            i <= v.len(),
            r.deep_view() =~= v.deep_view().subrange(0, i as int),
        decreases v.len() - i,
    {
        let ghost prev = r.deep_view();
        let item = v[i].duplicate();
        r.push(item);
        assert(r.deep_view() =~= prev.push(v.deep_view()[i as int]));
        i = i + 1;
    }
    assert(v.deep_view().subrange(0, v.len() as int) =~= v.deep_view());
    r
}

impl GameDefinition {
    /// A copy of this definition.
    pub fn duplicate(&self) -> (r: GameDefinition)
        ensures
            r@ == self@,
    {
        GameDefinition {
            id: self.id.clone(),
            title: self.title.clone(),
            description: self.description.clone(),
            icon: self.icon.clone(),
            category: self.category.clone(),
            estimated_minutes: self.estimated_minutes,
            response_mode: self.response_mode,
            experience: self.experience,
            default_rounds: self.default_rounds,
            min_players: self.min_players,
            questions: clone_questions(&self.questions),
        }
    }
}

/// The number of rounds a game has when its definition names none.
pub fn default_rounds() -> (r: u8)
    ensures
        r == 5,
{
    5
}

/// The fewest players a game needs when its definition names none.
pub fn default_min_players() -> (r: usize)
    ensures
        r == 2,
{
    2
}

/// The catalog category a game has when its definition names none.
pub fn default_game_category() -> (r: String)
    ensures
        r@ == "Party"@,
{
    String::from_str("Party")
}

/// The play time a game announces when its definition names none.
pub fn default_estimated_minutes() -> (r: u8)
    ensures
        r == 10,
{
    10
}

/// What the catalog tells clients about one game.
#[derive(Debug)]
pub struct GameSummary {
    pub id: String,
    pub title: String,
    pub description: String,
    pub icon: String,
    pub category: String,
    pub estimated_minutes: u8,
    pub response_mode: ResponseMode,
    pub experience: GameExperience,
    pub default_rounds: u8,
    pub min_players: usize,
    pub question_count: usize,
}

impl GameSummary {
    /// The summary of `game`: its descriptive fields and the number of its questions.
    pub fn from_definition(game: &GameDefinition) -> (r: GameSummary)
        ensures
            r.id@ == game.id@,
            r.title@ == game.title@,
            r.description@ == game.description@,
            r.icon@ == game.icon@,
            r.category@ == game.category@,
            r.estimated_minutes == game.estimated_minutes,
            r.response_mode == game.response_mode,
            r.experience == game.experience,
            r.default_rounds == game.default_rounds,
            r.min_players == game.min_players,
            r.question_count == game.questions.len(),
    {
        GameSummary {
            id: game.id.clone(),
            title: game.title.clone(),
            description: game.description.clone(),
            icon: game.icon.clone(),
            category: game.category.clone(),
            estimated_minutes: game.estimated_minutes,
            response_mode: game.response_mode,
            experience: game.experience,
            default_rounds: game.default_rounds,
            min_players: game.min_players,
            question_count: game.questions.len(),
        }
    }
}

/// The question a plain prompt becomes in Priority Sync.
pub open spec fn priority_sync_question(prompt: Seq<char>) -> QuestionView {
    QuestionView {
        prompt,
        category: "friends"@,
        difficulty: "easy"@,
        options: Seq::empty(),
        visual_options: Seq::empty(),
        correct_option: None,
    }
}

/// The built-in Priority Sync game over the given prompts.
pub fn priority_sync_from_strings(questions: Vec<String>) -> (r: GameDefinition)
    ensures
        r.id@ == "priority-sync"@,
        r.title@ == "Priority Sync"@,
        r.description@ == "Vote for the friend who fits the prompt best."@,
        r.icon@ == "spark"@,
        r.category@ == "Friends"@,
        r.estimated_minutes == 10,
        r.response_mode == ResponseMode::PlayerVote,
        r.experience == GameExperience::Competitive,
        r.default_rounds == 5,
        r.min_players == 2,
        r.questions.deep_view() == questions.deep_view().map_values(
            |p: Seq<char>| priority_sync_question(p),
        ),
{
    let mut list: Vec<Question> = Vec::new();
    let mut i: usize = 0;
    while i < questions.len()
        invariant
            i <= questions.len(),
            list.deep_view() =~= questions.deep_view().subrange(0, i as int).map_values(
                |p: Seq<char>| priority_sync_question(p),
            ),
        decreases questions.len() - i,
    {
        let q = Question {
            prompt: questions[i].clone(),
            category: String::from_str("friends"),
            difficulty: String::from_str("easy"),
            options: Vec::new(),
            visual_options: Vec::new(),
            correct_option: None,
        };
        assert(q.options.deep_view() =~= Seq::<Seq<char>>::empty());
        assert(q.visual_options.deep_view() =~= Seq::<Seq<char>>::empty());
        let ghost prev = list.deep_view();
        list.push(q);
        assert(list.deep_view() =~= prev.push(priority_sync_question(questions.deep_view()[i as int])));
        i = i + 1;
    }
    assert(questions.deep_view().subrange(0, questions.len() as int) =~= questions.deep_view());
    GameDefinition {
        id: String::from_str("priority-sync"),
        title: String::from_str("Priority Sync"),
        description: String::from_str("Vote for the friend who fits the prompt best."),
        icon: String::from_str("spark"),
        category: String::from_str("Friends"),
        estimated_minutes: 10,
        response_mode: ResponseMode::PlayerVote,
        experience: GameExperience::Competitive,
        default_rounds: 5,
        min_players: 2,
        questions: list,
    }
}

} // verus!
