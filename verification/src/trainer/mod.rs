use crate::adapter::TrainerAdapter;
use crate::adapter::TrainerAdapterFactory;
use crate::network::Edges;
use crate::network::Network;
use crate::network::NetworkConfig;
use crate::network::functions::Operation;
use crate::network::functions::answers_all;
use crate::network::value::Value;
use crate::random::choose_weighted;
use crate::random::random_offset;
use crate::trainer::batch::attempt;
use crate::trainer::batch::batch_step;
use crate::trainer::batch::edit_step;
use crate::trainer::batch::evolved;
use crate::trainer::batch::lemma_order_weights_sum;
use crate::trainer::batch::order_weights;
use crate::trainer::batch::preferred_order;
use crate::trainer::batch::priority_order;
use crate::trainer::mutation::Draw;
use crate::trainer::mutation::draws_all;
use crate::trainer::score::SCORE_SCALE;
use crate::trainer::score::aggregate;
use crate::trainer::score::aggregate_of;
use crate::trainer::score::scores_fit;
use crate::trainer::score::try_aggregate;
use crate::trainer::score::lemma_bounded_scores_fit;
use crate::trainer::score::lemma_tie_favours_last;
use crate::trainer::score::lemma_unique_maximum_wins;
use crate::trainer::score::lemma_winner_index;
use crate::trainer::score::winner_index;
use crate::trainer::score::winning_index;
use std::marker::PhantomData;
use vstd::prelude::*;

pub mod batch;
pub mod history;
pub mod mutation;
pub mod score;

verus! {

/// How a generation is run.
#[derive(Debug, Clone, Copy, PartialEq, Eq, Structural)]
pub struct TrainerConfig {
    /// The number of networks that contend in a single generation: the
    /// mutated ones and the one they were made from.
    pub generation_contenders: usize,
    /// The number of batch mutations applied to each mutated contender.
    pub generation_mutations: usize,
    /// How far the number of mutations of a contender may stray, at random,
    /// from `generation_mutations`.
    pub generation_mutations_jitter: usize,
    /// The number of episodes in a single generation over which scores are
    /// averaged.
    pub generation_iterations: usize,
}

impl TrainerConfig {
    /// There is at least one contender and one episode, and the numbers of
    /// mutations can be counted.
    pub open spec fn valid(&self) -> bool {
        &&& self.generation_contenders >= 1
        &&& self.generation_iterations >= 1
        &&& self.generation_mutations <= i32::MAX
        &&& self.generation_mutations_jitter <= i32::MAX
    }

    /// Whether the configuration is valid.
    pub fn is_valid(&self) -> (ok: bool)
        ensures
            ok == self.valid(),
    {
        self.generation_contenders >= 1 && self.generation_iterations >= 1
            && self.generation_mutations <= 0x7FFF_FFFF && self.generation_mutations_jitter
            <= 0x7FFF_FFFF
    }
}

/// The number of batch mutations for a base number and a random offset: their
/// sum, but at least one.
pub open spec fn count_for(mutations: int, offset: int) -> int {
    if mutations + offset >= 1 {
        mutations + offset
    } else {
        1
    }
}

/// Whether `steps` is a number of batch mutations that the configuration
/// allows: the base number with an offset of at least minus the jitter and
/// less than the jitter, or with none where the jitter is zero.
pub open spec fn count_within(config: TrainerConfig, steps: int) -> bool {
    exists|offset: int|
        #[trigger] count_for(config.generation_mutations as int, offset) == steps && if config.generation_mutations_jitter
            == 0 {
            offset == 0
        } else {
            -config.generation_mutations_jitter <= offset < config.generation_mutations_jitter
        }
}

/// The number of batch mutations for a base number and a random offset.
pub fn jittered_count(mutations: usize, offset: i32) -> (count: usize)
    requires
        mutations <= i32::MAX,
    ensures
        count == count_for(mutations as int, offset as int),
{
    let sum: i64 = mutations as i64 + offset as i64;
    if sum >= 1 {
        sum as usize
    } else {
        1
    }
}

/// Whether the edges can be those of a mutated contender: made from `start` by
/// a number of batch mutations that the configuration allows.
pub open spec fn is_mutant<OP: Fn(Operation) -> Value, D: Fn(Draw) -> Value>(
    arith: &OP,
    draw: &D,
    config: TrainerConfig,
    input_height: int,
    start: Edges,
    edges: Edges,
) -> bool {
    exists|steps: nat|
        count_within(config, steps as int) && #[trigger] evolved(
            arith,
            draw,
            input_height,
            start,
            edges,
            steps,
        )
}

/// Whether there are `rounds` scores, none with a magnitude above `limit`.
pub open spec fn scores_within(scores: Seq<isize>, rounds: int, limit: int) -> bool {
    &&& scores.len() == rounds
    &&& forall|i: int| 0 <= i < scores.len() ==> -limit <= #[trigger] scores[i] <= limit
}

/// The single score of each contender.
pub open spec fn aggregates(scores: Seq<Seq<isize>>) -> Seq<isize> {
    Seq::new(scores.len(), |c: int| aggregate_of(scores[c]) as isize)
}

/// Whether `fitness` is a fitness that the episode can report for a network
/// with the given functions and edges.
pub open spec fn scored_by<OP: Fn(Operation) -> Value, A: TrainerAdapter<OP>>(
    arith: &OP,
    adapter: A,
    functions: NetworkConfig,
    edges: Edges,
    fitness: isize,
) -> bool {
    exists|network: Network|
        network.config == functions && network.edges() == edges && #[trigger] adapter.can_score(
            arith,
            &network,
            fitness,
        )
}

/// Whether the scores of a contender are, round by round, ones that the
/// episode of that round can report for the contender's edges.
pub open spec fn scored_in_rounds<OP: Fn(Operation) -> Value, A: TrainerAdapter<OP>>(
    arith: &OP,
    episodes: Seq<A>,
    functions: NetworkConfig,
    edges: Edges,
    scores: Seq<isize>,
) -> bool {
    forall|r: int|
        0 <= r < scores.len() && r < episodes.len() ==> scored_by(
            arith,episodes[r],
            functions,
            edges,
            #[trigger] scores[r],
        )
}

/// Whether every episode is one that the factory makes.
pub open spec fn made_by<
    OP: Fn(Operation) -> Value,
    A: TrainerAdapter<OP>,
    AF: TrainerAdapterFactory<OP, A>,
>(
    factory: &AF,
    episodes: Seq<A>,
) -> bool {
    forall|r: int| 0 <= r < episodes.len() ==> factory.makes(&#[trigger] episodes[r])
}

/// Whether `population`, `episodes` and `scores` can be the contenders of one
/// generation, the episodes they played and what they scored: as many
/// contenders as configured, the last of them with the edges the generation
/// started from and each other a mutant of it; one episode for each round,
/// none with a greater fitness limit than the factory's; and for each
/// contender one score for each round, which the episode of that round can
/// report for the contender.
pub open spec fn generation<
    OP: Fn(Operation) -> Value,
    D: Fn(Draw) -> Value,
    A: TrainerAdapter<OP>,
>(
    arith: &OP,
    draw: &D,
    config: TrainerConfig,
    functions: NetworkConfig,
    limit: int,
    input_height: int,
    start: Edges,
    population: Seq<Edges>,
    episodes: Seq<A>,
    scores: Seq<Seq<isize>>,
) -> bool {
    &&& population.len() == config.generation_contenders
    &&& scores.len() == config.generation_contenders
    &&& episodes.len() == config.generation_iterations
    &&& forall|r: int| 0 <= r < episodes.len() ==> (#[trigger] episodes[r]).fitness_limit() <= limit
    &&& forall|c: int|
        0 <= c < scores.len() ==> scored_in_rounds(
            arith,episodes,
            functions,
            population[c],
            #[trigger] scores[c],
        )
    &&& population.last() == start
    &&& forall|c: int|
        0 <= c < population.len() - 1 ==> is_mutant(
            arith,
            draw,
            config,
            input_height,
            start,
            #[trigger] population[c],
        )
    &&& forall|c: int|
        0 <= c < scores.len() ==> scores_within(
            #[trigger] scores[c],
            config.generation_iterations as int,
            limit,
        )
}

/// In a generation in which no contender's single score is greater than that
/// of the network the generation started from, which is the last contender,
/// the winner has the edges of that network: a tie favours no change.
pub proof fn lemma_tie_keeps_start<
    OP: Fn(Operation) -> Value,
    D: Fn(Draw) -> Value,
    A: TrainerAdapter<OP>,
>(
    arith: &OP,
    draw: &D,
    config: TrainerConfig,
    functions: NetworkConfig,
    limit: int,
    input_height: int,
    start: Edges,
    population: Seq<Edges>,
    episodes: Seq<A>,
    scores: Seq<Seq<isize>>,
)
    requires
        config.valid(),
        generation(
            arith,
            draw,
            config,
            functions,
            limit,
            input_height,
            start,
            population,
            episodes,
            scores,
        ),
        forall|c: int|
            0 <= c < scores.len() ==> (#[trigger] aggregates(scores)[c]) <= aggregates(
                scores,
            ).last(),
    ensures
        population[winner_index(aggregates(scores))] == start,
{
    lemma_tie_favours_last(aggregates(scores));
}

/// In a generation in which the single score of one contender is greater than
/// that of every other, the winner has the edges of that contender.
pub proof fn lemma_single_best_wins<
    OP: Fn(Operation) -> Value,
    D: Fn(Draw) -> Value,
    A: TrainerAdapter<OP>,
>(
    arith: &OP,
    draw: &D,
    config: TrainerConfig,
    functions: NetworkConfig,
    limit: int,
    input_height: int,
    start: Edges,
    population: Seq<Edges>,
    episodes: Seq<A>,
    scores: Seq<Seq<isize>>,
    best: int,
)
    requires
        config.valid(),
        generation(
            arith,
            draw,
            config,
            functions,
            limit,
            input_height,
            start,
            population,
            episodes,
            scores,
        ),
        0 <= best < scores.len(),
        forall|c: int|
            0 <= c < scores.len() && c != best ==> (#[trigger] aggregates(scores)[c]) < aggregates(
                scores,
            )[best],
    ensures
        population[winner_index(aggregates(scores))] == population[best],
{
    lemma_unique_maximum_wins(aggregates(scores), best);
}

/// Whether `contenders` can be the contenders of a generation that starts from
/// `start`, before any of them is scored: as many as configured, the last of
/// them with the edges of `start` and each other a mutant of it, every one
/// with the functions and the shape of `start` and no dangling edge, and none
/// with a score yet.
pub open spec fn fresh_population<OP: Fn(Operation) -> Value, D: Fn(Draw) -> Value>(
    arith: &OP,
    draw: &D,
    config: TrainerConfig,
    start: &Network,
    contenders: Seq<(Network, Vec<isize>)>,
) -> bool {
    &&& contenders.len() == config.generation_contenders
    &&& contenders.last().0.edges() == start.edges()
    &&& forall|c: int|
        0 <= c < contenders.len() ==> {
            &&& (#[trigger] contenders[c]).1@.len() == 0
            &&& contenders[c].0.config == start.config
            &&& contenders[c].0.well_formed()
            &&& contenders[c].0.same_shape(start)
            &&& start.free_of_duplicates() ==> contenders[c].0.free_of_duplicates()
        }
    &&& forall|c: int|
        0 <= c < contenders.len() - 1 ==> is_mutant(
            arith,
            draw,
            config,
            start.inputs().len() as int,
            start.edges(),
            (#[trigger] contenders[c]).0.edges(),
        )
}

/// The scores of each contender.
pub open spec fn score_lists(contenders: Seq<(Network, Vec<isize>)>) -> Seq<Seq<isize>> {
    Seq::new(contenders.len(), |c: int| contenders[c].1@)
}

/// Whether a winner can be selected among the contenders: there is a
/// contender, and every contender has scores whose scaled sums can be held.
pub open spec fn selectable(contenders: Seq<(Network, Vec<isize>)>) -> bool {
    &&& contenders.len() > 0
    &&& forall|c: int|
        0 <= c < contenders.len() ==> (#[trigger] contenders[c]).1@.len() > 0 && scores_fit(
            contenders[c].1@,
        )
}

/// The contender that wins, with its single score: the contender whose single
/// score is the greatest, and of several such the one enumerated last.
pub fn select_scored(contenders: Vec<(Network, Vec<isize>)>) -> (winner: (Network, isize))
    requires
        selectable(contenders@),
    ensures
        winner.0 == contenders@[winner_index(aggregates(score_lists(contenders@)))].0,
        winner.1 == aggregates(score_lists(contenders@))[winner_index(
            aggregates(score_lists(contenders@)),
        )],
{
    let ghost scores = score_lists(contenders@);
    let mut contenders = contenders;
    let ghost given = contenders@;
    let mut totals: Vec<isize> = Vec::new();
    let mut c: usize = 0;
    while c < contenders.len()
        invariant
            contenders@ == given,
            selectable(given),
            scores == score_lists(given),
            c <= given.len(),
            totals@.len() == c,
            forall|i: int| 0 <= i < c ==> #[trigger] totals@[i] == aggregate_of(scores[i]),
        decreases given.len() - c,
    {
        proof {
            assert(given[c as int].1@.len() > 0 && scores_fit(given[c as int].1@));
        }
        let total_score = aggregate(&contenders[c].1);
        totals.push(total_score);
        c += 1;
    }
    proof {
        assert(totals@ =~= aggregates(scores));
    }
    let best = winning_index(&totals);
    let winner = contenders.swap_remove(best);
    (winner.0, totals[best])
}

/// The contender that wins, with its single score, if a winner can be
/// selected.
pub fn try_select_scored(contenders: Vec<(Network, Vec<isize>)>) -> (winner: Option<
    (Network, isize),
>)
    ensures
        winner is Some <==> selectable(contenders@),
        winner matches Some(found) ==> {
            &&& found.0 == contenders@[winner_index(aggregates(score_lists(contenders@)))].0
            &&& found.1 == aggregates(score_lists(contenders@))[winner_index(
                aggregates(score_lists(contenders@)),
            )]
        },
{
    if contenders.len() == 0 {
        return None;
    }
    let mut c: usize = 0;
    while c < contenders.len()
        invariant
            c <= contenders@.len(),
            forall|i: int|
                0 <= i < c ==> (#[trigger] contenders@[i]).1@.len() > 0 && scores_fit(
                    contenders@[i].1@,
                ),
        decreases contenders@.len() - c,
    {
        if try_aggregate(&contenders[c].1).is_none() {
            proof {
                assert(!(contenders@[c as int].1@.len() > 0 && scores_fit(contenders@[c as int].1@)));
            }
            return None;
        }
        c += 1;
    }
    Some(select_scored(contenders))
}

/// Whether a contender under evaluation is in order: it has the edges it was
/// given, the shape and functions of the network the generation started from,
/// no dangling edge, and `rounds` scores within the limit, each one that the
/// episode of its round can report for the contender.
spec fn contender_in_order<OP: Fn(Operation) -> Value, A: TrainerAdapter<OP>>(
    arith: &OP,
    contender: (Network, Vec<isize>),
    edges: Edges,
    start: &Network,
    episodes: Seq<A>,
    rounds: int,
    limit: int,
) -> bool {
    &&& contender.0.edges() == edges
    &&& scored_in_rounds(arith, episodes, start.config, edges, contender.1@)
    &&& contender.0.config == start.config
    &&& contender.0.well_formed()
    &&& contender.0.same_shape(start)
    &&& start.free_of_duplicates() ==> contender.0.free_of_duplicates()
    &&& scores_within(contender.1@, rounds, limit)
}

/// Drives generations with episodes from one factory.
pub struct Trainer<A, AF> {
    pub config: TrainerConfig,
    pub adapter_factory: AF,
    pub _adapter_phantom: PhantomData<A>,
}

impl<A, AF> Trainer<A, AF> {
    /// A trainer that runs generations as configured, with episodes from the
    /// factory.
    pub fn new(config: TrainerConfig, adapter_factory: AF) -> (trainer: Self)
        ensures
            trainer.config == config,
            trainer.adapter_factory == adapter_factory,
    {
        Trainer { config, adapter_factory, _adapter_phantom: PhantomData }
    }

    /// The number of batch mutations for the next contender: the configured
    /// number with a random offset within the jitter, but at least one.
    pub fn mutation_count(&self) -> (count: usize)
        requires
            self.config.valid(),
        ensures
            count_within(self.config, count as int),
            count >= 1,
    {
        let jitter: usize = self.config.generation_mutations_jitter;
        let mutation_count_randomization: i32 = if jitter == 0 {
            0
        } else {
            random_offset(jitter as i32)
        };
        let count = jittered_count(self.config.generation_mutations, mutation_count_randomization);
        proof {
            assert(count_for(
                self.config.generation_mutations as int,
                mutation_count_randomization as int,
            ) == count);
        }
        count
    }

    /// A copy of `network` after a number of batch mutations drawn for it.
    pub fn mutated_contender<OP: Fn(Operation) -> Value, D: Fn(Draw) -> Value>(
        &self,
        network: &Network,
        arith: &OP,
        draw: &D,
    ) -> (contender: Network)
        requires
            self.config.valid(),
            network.well_formed(),
            answers_all(arith),
            draws_all(draw),
        ensures
            contender.config == network.config,
            contender.inputs() == network.inputs(),
            is_mutant(
                arith,
                draw,
                self.config,
                network.inputs().len() as int,
                network.edges(),
                contender.edges(),
            ),
            contender.well_formed(),
            contender.same_shape(network),
            network.free_of_duplicates() ==> contender.free_of_duplicates(),
    {
        let mut new_contender = network.clone();
        let mutation_count: usize = self.mutation_count();
        let mut done: usize = 0;
        while done < mutation_count
            invariant
                network.well_formed(),
                answers_all(arith),
                draws_all(draw),
                done <= mutation_count,
                new_contender.config == network.config,
                new_contender.inputs() == network.inputs(),
                new_contender.well_formed(),
                new_contender.same_shape(network),
                network.free_of_duplicates() ==> new_contender.free_of_duplicates(),
                evolved(
                    arith,
                    draw,
                    network.inputs().len() as int,
                    network.edges(),
                    new_contender.edges(),
                    done as nat,
                ),
            decreases mutation_count - done,
        {
            let ghost previous = new_contender.edges();
            new_contender = self.mutate(new_contender, arith, draw);
            proof {
                assert(batch_step(
                    arith,
                    draw,
                    network.inputs().len() as int,
                    previous,
                    new_contender.edges(),
                ));
            }
            done += 1;
        }
        new_contender
    }

    /// The contenders of a generation that starts from `network`, none of them
    /// scored yet: one less than configured mutated copies of `network`, and
    /// `network` itself as the last.
    pub fn population<OP: Fn(Operation) -> Value, D: Fn(Draw) -> Value>(
        &self,
        network: Network,
        arith: &OP,
        draw: &D,
    ) -> (contenders: Vec<(Network, Vec<isize>)>)
        requires
            self.config.valid(),
            network.well_formed(),
            answers_all(arith),
            draws_all(draw),
        ensures
            fresh_population(arith, draw, self.config, &network, contenders@),
            contenders@.last().0.inputs() == network.inputs(),
    {
        let mut contenders: Vec<(Network, Vec<isize>)> = Vec::new();
        let mut made: usize = 0;
        // One less than configured, because the network itself comes last.
        while made < self.config.generation_contenders - 1
            invariant
                self.config.valid(),
                network.well_formed(),
                answers_all(arith),
                draws_all(draw),
                made <= self.config.generation_contenders - 1,
                contenders@.len() == made,
                forall|c: int|
                    0 <= c < made ==> {
                        &&& (#[trigger] contenders@[c]).1@.len() == 0
                        &&& contenders@[c].0.config == network.config
                        &&& contenders@[c].0.well_formed()
                        &&& contenders@[c].0.same_shape(&network)
                        &&& network.free_of_duplicates() ==> contenders@[c].0.free_of_duplicates()
                        &&& is_mutant(
                            arith,
                            draw,
                            self.config,
                            network.inputs().len() as int,
                            network.edges(),
                            contenders@[c].0.edges(),
                        )
                    },
            decreases self.config.generation_contenders - 1 - made,
        {
            let new_contender = self.mutated_contender(&network, arith, draw);
            contenders.push((new_contender, Vec::new()));
            made += 1;
        }
        let ghost start = network;
        contenders.push((network, Vec::new()));
        proof {
            assert(contenders@.last().0 == start);
        }
        contenders
    }

    /// Runs one generation: makes the contenders, scores every contender in
    /// every episode, and returns the contender that wins with its score.
    ///
    /// The contenders are one less than configured mutated copies of
    /// `network`, and `network` itself as the last. Each episode is made
    /// afresh and plays every contender. A contender's single score is the
    /// scaled average of its scores; the greatest wins, and of several the
    /// contender enumerated last.
    pub fn train_generation<OP: Fn(Operation) -> Value, D: Fn(Draw) -> Value>(
        &self,
        network: Network,
        arith: &OP,
        draw: &D,
    ) -> (result: (Network, isize)) where A: TrainerAdapter<OP>, AF: TrainerAdapterFactory<OP, A>
        requires
            self.config.valid(),
            network.well_formed(),
            self.adapter_factory.ready(),
            forall|other: Network|
                other.well_formed() && other.same_shape(&network)
                    ==> #[trigger] self.adapter_factory.accepts(&other),
            self.adapter_factory.fitness_limit() >= 0,
            self.config.generation_iterations * self.adapter_factory.fitness_limit() * SCORE_SCALE
                <= isize::MAX,
            answers_all(arith),
            draws_all(draw),
        ensures
            result.0.config == network.config,
            result.0.well_formed(),
            result.0.same_shape(&network),
            network.free_of_duplicates() ==> result.0.free_of_duplicates(),
            exists|population: Seq<Edges>, episodes: Seq<A>, scores: Seq<Seq<isize>>|
                {
                    &&& #[trigger] generation(
                        arith,
                        draw,
                        self.config,
                        network.config,
                        self.adapter_factory.fitness_limit() as int,
                        network.inputs().len() as int,
                        network.edges(),
                        population,
                        episodes,
                        scores,
                    )
                    &&& made_by::<OP, A, AF>(&self.adapter_factory, episodes)
                    &&& result.0.edges() == population[winner_index(aggregates(scores))]
                    &&& result.1 == aggregates(scores)[winner_index(aggregates(scores))]
                },
    {
        let ghost limit = self.adapter_factory.fitness_limit() as int;
        let ghost h = network.inputs().len() as int;
        let ghost mut population: Seq<Edges> = Seq::empty();
        let ghost mut episodes: Seq<A> = Seq::empty();
        let ghost start = network;
        let mut scoring_contenders = self.population(network, arith, draw);
        proof {
            population = Seq::new(
                scoring_contenders@.len(),
                |c: int| scoring_contenders@[c].0.edges(),
            );
            assert forall|c: int| 0 <= c < scoring_contenders@.len() implies contender_in_order(
                arith,#[trigger] scoring_contenders@[c],
                population[c],
                &start,
                episodes,
                0,
                limit,
            ) by {}
        }

        let mut round: usize = 0;
        while round < self.config.generation_iterations
            invariant
                self.config.valid(),
                start.well_formed(),
                answers_all(arith),
                limit == self.adapter_factory.fitness_limit(),
                self.adapter_factory.ready(),
                forall|other: Network|
                    other.well_formed() && other.same_shape(&start)
                        ==> #[trigger] self.adapter_factory.accepts(&other),
                round <= self.config.generation_iterations,
                population.len() == self.config.generation_contenders,
                scoring_contenders@.len() == self.config.generation_contenders,
                episodes.len() == round,
                made_by::<OP, A, AF>(&self.adapter_factory, episodes),
                forall|r: int|
                    0 <= r < episodes.len() ==> (#[trigger] episodes[r]).fitness_limit() <= limit,
                forall|c: int|
                    0 <= c < scoring_contenders@.len() ==> contender_in_order(
                        arith,#[trigger] scoring_contenders@[c],
                        population[c],
                        &start,
                        episodes,
                        round as int,
                        limit,
                    ),
            decreases self.config.generation_iterations - round,
        {
            let iteration_adapter = self.adapter_factory.create_adapter();
            let ghost earlier = episodes;
            proof {
                episodes = episodes.push(iteration_adapter);
                assert forall|r: int| 0 <= r < episodes.len() implies self.adapter_factory.makes(
                    &#[trigger] episodes[r],
                ) by {
                    if r < earlier.len() {
                        assert(episodes[r] == earlier[r]);
                    }
                }
                assert forall|c: int| 0 <= c < scoring_contenders@.len() implies contender_in_order(
                    arith,#[trigger] scoring_contenders@[c],
                    population[c],
                    &start,
                    episodes,
                    round as int,
                    limit,
                ) by {
                    assert(contender_in_order(
                        arith,scoring_contenders@[c],
                        population[c],
                        &start,
                        earlier,
                        round as int,
                        limit,
                    ));
                    assert forall|r: int|
                        0 <= r < scoring_contenders@[c].1@.len() && r < episodes.len() implies scored_by(
                        arith,episodes[r],
                        start.config,
                        population[c],
                        #[trigger] scoring_contenders@[c].1@[r],
                    ) by {
                        assert(episodes[r] == earlier[r]);
                    }
                }
            }
            let mut c: usize = 0;
            while c < scoring_contenders.len()
                invariant
                    start.well_formed(),
                    answers_all(arith),
                    forall|other: Network|
                        other.well_formed() && other.same_shape(&start)
                            ==> #[trigger] iteration_adapter.accepts(&other),
                    iteration_adapter.fitness_limit() <= limit,
                    made_by::<OP, A, AF>(&self.adapter_factory, episodes),
                    round < self.config.generation_iterations,
                    c <= scoring_contenders@.len(),
                    population.len() == self.config.generation_contenders,
                    scoring_contenders@.len() == self.config.generation_contenders,
                    episodes.len() == round + 1,
                    episodes[round as int] == iteration_adapter,
                    forall|i: int|
                        0 <= i < c ==> contender_in_order(
                            arith,#[trigger] scoring_contenders@[i],
                            population[i],
                            &start,
                            episodes,
                            round + 1,
                            limit,
                        ),
                    forall|i: int|
                        c <= i < scoring_contenders@.len() ==> contender_in_order(
                            arith,#[trigger] scoring_contenders@[i],
                            population[i],
                            &start,
                            episodes,
                            round as int,
                            limit,
                        ),
                decreases scoring_contenders@.len() - c,
            {
                let ghost before = scoring_contenders@;
                proof {
                    assert(contender_in_order(
                        arith,before[c as int],
                        population[c as int],
                        &start,
                        episodes,
                        round as int,
                        limit,
                    ));
                }
                let performance = iteration_adapter.try_out(&mut scoring_contenders[c].0, arith);
                scoring_contenders[c].1.push(performance);
                proof {
                    assert forall|i: int| 0 <= i < scoring_contenders@.len() && i != c implies scoring_contenders@[i]
                        == before[i] by {}
                    let now = scoring_contenders@[c as int];
                    assert(now.1@ == before[c as int].1@.push(performance));
                    assert(iteration_adapter.can_score(arith, &before[c as int].0, performance));
                    assert(scored_by(
                        arith,iteration_adapter,
                        start.config,
                        population[c as int],
                        performance,
                    ));
                    assert forall|r: int| 0 <= r < now.1@.len() && r < episodes.len() implies scored_by(
                        arith,episodes[r],
                        start.config,
                        population[c as int],
                        #[trigger] now.1@[r],
                    ) by {
                        if r < round {
                            assert(now.1@[r] == before[c as int].1@[r]);
                        }
                    }
                    assert(contender_in_order(
                        arith,now,
                        population[c as int],
                        &start,
                        episodes,
                        round + 1,
                        limit,
                    ));
                }
                c += 1;
            }
            round += 1;
        }

        let ghost scores: Seq<Seq<isize>> = Seq::new(
            scoring_contenders@.len(),
            |c: int| scoring_contenders@[c].1@,
        );
        proof {
            assert(scores =~= score_lists(scoring_contenders@));
            assert forall|c: int| 0 <= c < scores.len() implies scores_within(
                #[trigger] scores[c],
                self.config.generation_iterations as int,
                limit,
            ) && scored_in_rounds(arith, episodes, start.config, population[c], scores[c]) by {
                assert(contender_in_order(
                    arith,scoring_contenders@[c],
                    population[c],
                    &start,
                    episodes,
                    self.config.generation_iterations as int,
                    limit,
                ));
            }
            assert forall|c: int| 0 <= c < scoring_contenders@.len() implies (
            #[trigger] scoring_contenders@[c]).1@.len() > 0 && scores_fit(
                scoring_contenders@[c].1@,
            ) by {
                assert(contender_in_order(
                    arith,scoring_contenders@[c],
                    population[c],
                    &start,
                    episodes,
                    self.config.generation_iterations as int,
                    limit,
                ));
                lemma_bounded_scores_fit(scoring_contenders@[c].1@, limit);
            }
            assert(generation(
                arith,
                draw,
                self.config,
                start.config,
                limit,
                h,
                start.edges(),
                population,
                episodes,
                scores,
            ));
            lemma_winner_index(aggregates(scores));
            let best = winner_index(aggregates(scores));
            assert(contender_in_order(
                arith,scoring_contenders@[best],
                population[best],
                &start,
                episodes,
                self.config.generation_iterations as int,
                limit,
            ));
        }
        select_scored(scoring_contenders)
    }

    /// One batch mutation: draws one of the three priority orders, with
    /// weights seven, one and two, then attempts the three kinds of edit in
    /// that order, making each that is feasible.
    pub fn mutate<OP: Fn(Operation) -> Value, D: Fn(Draw) -> Value>(
        &self,
        network: Network,
        arith: &OP,
        draw: &D,
    ) -> (mutated: Network)
        requires
            network.well_formed(),
            answers_all(arith),
            draws_all(draw),
        ensures
            mutated.config == network.config,
            mutated.input_layer == network.input_layer,
            batch_step(
                arith,
                draw,
                network.inputs().len() as int,
                network.edges(),
                mutated.edges(),
            ),
            mutated.well_formed(),
            mutated.same_shape(&network),
            network.free_of_duplicates() ==> mutated.free_of_duplicates(),
    {
        let weights = order_weights();
        proof {
            lemma_order_weights_sum();
        }
        let choice: usize = choose_weighted(&weights).unwrap().0;
        let order = preferred_order(choice);
        let mut mutated = network;
        attempt(order[0], &mut mutated, arith, draw);
        let ghost first = mutated.edges();
        attempt(order[1], &mut mutated, arith, draw);
        let ghost second = mutated.edges();
        attempt(order[2], &mut mutated, arith, draw);
        proof {
            let h = network.inputs().len() as int;
            assert(edit_step(arith, draw, priority_order(choice as int)[0], h, network.edges(), first));
            assert(edit_step(arith, draw, priority_order(choice as int)[1], h, first, second));
            assert(edit_step(
                arith,
                draw,
                priority_order(choice as int)[2],
                h,
                second,
                mutated.edges(),
            ));
        }
        mutated
    }
}

} // verus!
