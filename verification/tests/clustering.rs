use rubberdux::app::merge::clustering::{
    decide_with, exclude, jaccard, lexical_fallback, parse_decision, prefilter, tokenize,
    user_message, LlmClassifyResponse, LlmClusterer, ModelAnswer, ModelApi, MAX_LLM_CANDIDATES,
};
use rubberdux::app::merge::{ClusterCandidate, ClusterDecision, Clusterer};
use rubberdux::conversation::Message;
use rubberdux::json_object::extract_json_object;

struct Scripted {
    reply: Option<String>,
}

impl ModelApi for Scripted {
    fn ask(&self, _system: &Message, _user: &Message) -> ModelAnswer {
        let reply = match &self.reply {
            Some(r) => r,
            None => return ModelAnswer::Failed,
        };
        let value = extract_json_object(reply)
            .and_then(|o| serde_json::from_str::<serde_json::Value>(&o).ok());
        match value {
            Some(v) => ModelAnswer::Read(LlmClassifyResponse {
                decision: v["decision"].as_str().map(|s| s.to_owned()),
                index: v["index"].as_u64().map(|n| n as usize),
            }),
            None => ModelAnswer::Unreadable,
        }
    }
}

fn scripted(reply: &str) -> LlmClusterer<Scripted> {
    LlmClusterer::new(Scripted { reply: Some(reply.to_owned()) })
}

fn candidate(id: &str, summary: &str) -> ClusterCandidate {
    ClusterCandidate { app_id: id.to_owned(), summary: summary.to_owned() }
}

fn join(id: &str) -> ClusterDecision {
    ClusterDecision::Join { app_id: id.to_owned() }
}

fn ratio(a: &str, b: &str) -> f64 {
    let score = jaccard(a, b);
    if score.total == 0 {
        0.0
    } else {
        score.shared as f64 / score.total as f64
    }
}

#[test]
fn jaccard_identical_summaries_is_one() {
    assert!((ratio("plan the trip", "plan the trip") - 1.0).abs() < f64::EPSILON);
}

#[test]
fn jaccard_disjoint_summaries_is_zero() {
    assert_eq!(ratio("debug the parser", "buy groceries milk"), 0.0);
}

#[test]
fn jaccard_empty_is_zero() {
    assert_eq!(ratio("", "anything here"), 0.0);
    assert_eq!(ratio("anything here", ""), 0.0);
}

#[test]
fn lexical_fallback_joins_near_duplicate() {
    let candidates = vec![
        candidate("app-1", "plan the Tokyo trip itinerary"),
        candidate("app-2", "fix the failing auth tests"),
    ];
    let decision = lexical_fallback("plan the Tokyo trip itinerary today", &candidates);
    assert_eq!(decision, ClusterDecision::Join { app_id: "app-1".to_owned() });
}

#[test]
fn lexical_fallback_new_when_below_threshold() {
    let candidates = vec![
        candidate("app-1", "plan the Tokyo trip"),
        candidate("app-2", "fix the failing auth tests"),
    ];
    let decision = lexical_fallback("write quarterly revenue report", &candidates);
    assert_eq!(decision, ClusterDecision::New);
}

#[test]
fn lexical_fallback_new_when_no_candidates() {
    assert_eq!(lexical_fallback("anything", &vec![]), ClusterDecision::New);
}

#[test]
fn prefilter_ranks_and_bounds() {
    let candidates = vec![
        candidate("a", "buy groceries"),
        candidate("b", "plan the Tokyo trip itinerary"),
        candidate("c", "fix tests"),
    ];
    let shortlist = prefilter("plan the Tokyo trip", &candidates, 2);
    assert_eq!(shortlist.len(), 2);
    assert_eq!(shortlist[0].app_id, "b");
}

#[test]
fn llm_join_decision_maps_index_to_app_id() {
    let clusterer = scripted(r#"{"decision":"join","index":1}"#);
    let candidates = vec![
        candidate("app-1", "plan the Tokyo trip"),
        candidate("app-2", "review the pull request"),
    ];
    let decision = clusterer.classify("xyzzy quux frobnicate", &candidates);
    assert_eq!(decision, join("app-2"));
}

#[test]
fn llm_new_decision_creates_new_app() {
    let clusterer = scripted(r#"{"decision":"new"}"#);
    let candidates = vec![candidate("app-1", "plan the Tokyo trip")];
    let decision = clusterer.classify("write the quarterly report", &candidates);
    assert_eq!(decision, ClusterDecision::New);
}

#[test]
fn llm_http_failure_falls_back_to_lexical_join() {
    let clusterer = LlmClusterer::new(Scripted { reply: None });
    let candidates = vec![candidate("app-1", "plan the Tokyo trip itinerary")];
    let decision = clusterer.classify("plan the Tokyo trip itinerary now", &candidates);
    assert_eq!(decision, join("app-1"));
}

#[test]
fn llm_malformed_json_defaults_to_new() {
    let clusterer = scripted("not json {{{");
    let candidates = vec![candidate("app-1", "unrelated topic entirely")];
    let decision = clusterer.classify("brand new subject", &candidates);
    assert_eq!(decision, ClusterDecision::New);
}

#[test]
fn reevaluate_excludes_current_app() {
    let clusterer = scripted(r#"{"decision":"join","index":0}"#);
    let candidates = vec![
        candidate("app-1", "the current home app"),
        candidate("app-2", "the better matching app"),
    ];
    let decision = clusterer.reevaluate("drifted summary", "app-1", &candidates);
    assert_eq!(decision, join("app-2"));
}

#[test]
fn words_are_lowercase_and_split_at_anything_else() {
    let mut words = tokenize("Fix the, FIX-THE Äpfel!");
    words.sort();
    assert_eq!(words, vec!["fix".to_string(), "the".to_string(), "äpfel".to_string()]);
    assert_eq!(tokenize("-- !"), Vec::<String>::new());
}

#[test]
fn similarity_counts_shared_words() {
    let score = jaccard("plan the trip", "Plan a trip");
    assert_eq!((score.shared, score.total), (2, 4));
    let same = jaccard("a b", "b a");
    assert_eq!((same.shared, same.total), (2, 2));
}

#[test]
fn ranking_keeps_the_order_of_equals() {
    let candidates = vec![candidate("x", "one"), candidate("y", "two"), candidate("z", "red cat")];
    let list = prefilter("red", &candidates, 8);
    let ids: Vec<&str> = list.iter().map(|c| c.app_id.as_str()).collect();
    assert_eq!(ids, vec!["z", "x", "y"]);
}

#[test]
fn an_index_outside_of_the_list_is_no_join() {
    let list = vec![candidate("a", "s")];
    let far = LlmClassifyResponse { decision: Some("join".into()), index: Some(1) };
    assert_eq!(parse_decision(&far, &list), ClusterDecision::New);
    let near = LlmClassifyResponse { decision: Some("join".into()), index: Some(0) };
    assert_eq!(parse_decision(&near, &list), join("a"));
    let unknown = LlmClassifyResponse { decision: Some("merge".into()), index: Some(0) };
    assert_eq!(parse_decision(&unknown, &list), ClusterDecision::New);
}

#[test]
fn the_index_counts_in_the_shortlist() {
    let mut candidates: Vec<ClusterCandidate> = Vec::new();
    for i in 0..12 {
        candidates.push(candidate(&format!("app-{}", i), "nothing shared"));
    }
    candidates.push(candidate("best", "alpha beta"));
    let answer = ModelAnswer::Read(LlmClassifyResponse {
        decision: Some("join".into()),
        index: Some(0),
    });
    assert_eq!(decide_with("alpha beta gamma", &candidates, &answer), join("best"));
    let beyond = ModelAnswer::Read(LlmClassifyResponse {
        decision: Some("join".into()),
        index: Some(MAX_LLM_CANDIDATES),
    });
    assert_eq!(decide_with("alpha beta gamma", &candidates, &beyond), ClusterDecision::New);
}

#[test]
fn exclusion_drops_one_app_alone() {
    let candidates = vec![candidate("a", "1"), candidate("b", "2"), candidate("a", "3")];
    assert_eq!(exclude(&candidates, "a"), vec![candidate("b", "2")]);
}

#[test]
fn question_lists_the_candidates() {
    let text = user_message("new one", &vec![candidate("a", "first"), candidate("b", "second")])
        .content_text();
    assert!(text.contains("new one"));
    assert!(text.contains("first"));
    assert!(text.contains("second"));
}
