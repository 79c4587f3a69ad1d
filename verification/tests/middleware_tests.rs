use pmcp::error::Error;
use pmcp::shared::chain_run::{ChainAction, ChainEvent, ChainHook, ChainPass, ChainRun};
use pmcp::shared::middleware::{
    AuthMiddleware, EnhancedMiddlewareChain, MiddlewareChain, CircuitBreakerMiddleware, CompressionMiddleware,
    CompressionType, CounterMap, MetricsMiddleware, MiddlewarePriority, PerformanceMetrics,
    RateLimitMiddleware, RetryMiddleware,
};

#[test]
fn chain_keeps_priority_order_stably() {
    let mut chain = EnhancedMiddlewareChain::new();
    chain.add(MiddlewarePriority::Low, "log");
    chain.add(MiddlewarePriority::Critical, "guard");
    chain.add(MiddlewarePriority::Normal, "a");
    chain.add(MiddlewarePriority::High, "auth");
    chain.add(MiddlewarePriority::Normal, "b");
    chain.add(MiddlewarePriority::Critical, "guard2");
    chain.add(MiddlewarePriority::Lowest, "cleanup");
    let names: Vec<&str> = chain.middlewares().iter().map(|(_, m)| *m).collect();
    assert_eq!(names, vec!["guard", "guard2", "auth", "a", "b", "log", "cleanup"]);
    assert_eq!(chain.len(), 7);
    assert!(chain.get_metrics().is_empty());

    let mut unsorted = EnhancedMiddlewareChain::new_no_sort();
    unsorted.add(MiddlewarePriority::Low, 1);
    unsorted.add(MiddlewarePriority::High, 2);
    unsorted.add(MiddlewarePriority::Low, 3);
    let order: Vec<i32> = unsorted.middlewares().iter().map(|(_, m)| *m).collect();
    assert_eq!(order, vec![1, 2, 3]);
    unsorted.sort_by_priority();
    let order: Vec<i32> = unsorted.middlewares().iter().map(|(_, m)| *m).collect();
    assert_eq!(order, vec![2, 1, 3]);
    assert!(EnhancedMiddlewareChain::<u8>::default().is_empty());

    let mut legacy = MiddlewareChain::new();
    legacy.add("first");
    legacy.add("second");
    assert_eq!(legacy.middlewares(), &["first", "second"]);

    assert_eq!(MiddlewarePriority::default(), MiddlewarePriority::Normal);
    assert_eq!(MiddlewarePriority::High.rank(), 1);
}

/// Milliseconds in nanoseconds.
fn ms(n: u64) -> u64 {
    n * 1_000_000
}

#[test]
fn rate_limit_allows_a_burst_then_refills() {
    let mut rl = RateLimitMiddleware::new(2, 3, ms(1000), 0);
    assert!(rl.check_rate_limit(ms(10)));
    assert!(rl.check_rate_limit(ms(20)));
    assert!(rl.check_rate_limit(ms(30)));
    assert!(!rl.check_rate_limit(ms(999)));
    assert!(matches!(rl.on_request(ms(999)), Err(Error::RateLimited)));
    // one period later two tokens come back
    assert!(rl.check_rate_limit(ms(1000)));
    assert!(rl.check_rate_limit(ms(1001)));
    assert!(!rl.check_rate_limit(ms(1002)));
    // a long pause fills the bucket but no further
    assert!(rl.on_request(ms(10_000)).is_ok());
    assert!(rl.check_rate_limit(ms(10_001)));
    assert!(rl.check_rate_limit(ms(10_002)));
    assert!(!rl.check_rate_limit(ms(10_003)));
}

#[test]
fn circuit_breaker_opens_and_recovers() {
    let mut cb = CircuitBreakerMiddleware::new(2, ms(60_000), ms(30_000));
    assert!(cb.should_allow_request(ms(0)));
    cb.record_failure(ms(100));
    assert!(cb.should_allow_request(ms(200)));
    cb.record_failure(ms(300));
    assert!(!cb.should_allow_request(ms(400)));
    assert!(matches!(cb.on_request(ms(30_300)), Err(Error::CircuitBreakerOpen)));
    assert!(cb.on_request(ms(30_301)).is_ok());
    assert!(cb.should_allow_request(ms(30_302)));
}

#[test]
fn circuit_breaker_forgets_old_failures() {
    let mut cb = CircuitBreakerMiddleware::new(2, ms(1_000), ms(5_000));
    cb.record_failure(ms(0));
    assert!(cb.should_allow_request(ms(5_000)));
    cb.record_failure(ms(5_001));
    assert!(cb.should_allow_request(ms(5_002)));
}

#[test]
fn rate_limit_counts_whole_milliseconds() {
    // 1.5 ms periods count as 1 ms; 2.9 ms elapsed counts as 2 ms, so two
    // periods pass and four tokens come back, capped by the bucket of 3.
    let mut rl = RateLimitMiddleware::new(2, 3, 1_500_000, 0);
    for t in 1..=3u64 {
        assert!(rl.check_rate_limit(t));
    }
    assert!(!rl.check_rate_limit(1_499_999));
    assert!(!rl.refill_would_panic(2_900_000));
    assert!(rl.check_rate_limit(2_900_000));
    assert!(rl.check_rate_limit(2_900_001));
    assert!(rl.check_rate_limit(2_900_002));
    assert!(!rl.check_rate_limit(2_900_003));
    // a period under a millisecond cannot be counted once it has passed
    let rl = RateLimitMiddleware::new(1, 1, 999_999, 0);
    assert!(!rl.refill_would_panic(999_998));
    assert!(rl.refill_would_panic(999_999));
    assert_eq!(rl.refill_period_ns(), 999_999);
}

#[test]
fn circuit_breaker_times_to_the_nanosecond() {
    let mut cb = CircuitBreakerMiddleware::new(1, 10, 1_000);
    cb.record_failure(5);
    assert!(!cb.should_allow_request(1_005));
    assert!(cb.should_allow_request(1_006));
}

#[test]
fn counters_by_method() {
    let mut m = MetricsMiddleware::new("svc".to_string());
    m.record_request("tools/list");
    m.record_request("tools/list");
    m.record_request("tools/call");
    m.record_response(Some("tools/list"), 30);
    m.record_response(None, 1_000);
    m.record_error(Some("tools/call"));
    assert_eq!(m.get_request_count("tools/list"), 2);
    assert_eq!(m.get_request_count("other"), 0);
    assert_eq!(m.get_error_count("tools/call"), 1);
    assert_eq!(m.get_average_duration("tools/list"), 15);
    assert_eq!(m.get_average_duration("other"), 0);
    assert_eq!(m.service_name(), "svc");

    let mut c = CounterMap::new();
    c.add("x", u64::MAX);
    c.add("x", 2);
    assert_eq!(c.get("x"), 1);
}

#[test]
fn performance_counters() {
    let mut p = PerformanceMetrics::new();
    assert_eq!(p.average_time(), 0);
    p.inc_requests();
    p.inc_requests();
    p.inc_errors();
    p.add_time(50);
    p.add_time(150);
    assert_eq!(p.request_count(), 2);
    assert_eq!(p.error_count(), 1);
    assert_eq!(p.average_time(), 100);
}

#[test]
fn compression_threshold() {
    let c = CompressionMiddleware::new(CompressionType::Gzip, 1024);
    assert!(c.should_compress(1024));
    assert!(!c.should_compress(1023));
    assert_eq!(c.compression_name(), "Gzip");
    let off = CompressionMiddleware::new(CompressionType::Uncompressed, 0);
    assert!(!off.should_compress(10_000));
}

#[test]
fn retry_and_auth_settings() {
    assert_eq!(RetryMiddleware::default().max_retries(), 3);
    assert_eq!(RetryMiddleware::new(5, 1000, 30000).max_retries(), 5);
    let _ = AuthMiddleware::new("Bearer token-123".to_string());
}


fn feed(run: &mut ChainRun, ev: ChainEvent) -> ChainAction {
    assert!(run.accepts(&ev));
    run.step(ev)
}

#[test]
fn request_pass_reports_a_failing_hook_to_everyone() {
    let mut chain = EnhancedMiddlewareChain::new_no_sort();
    chain.add(MiddlewarePriority::Normal, "first");
    chain.add(MiddlewarePriority::Normal, "second");
    let mut run = chain.start_pass(ChainPass::Request);
    assert!(matches!(feed(&mut run, ChainEvent::Begin), ChainAction::CountRequest));
    assert!(matches!(feed(&mut run, ChainEvent::Acknowledged), ChainAction::Ask(0)));
    assert!(matches!(feed(&mut run, ChainEvent::Executes(true)), ChainAction::Run { index: 0, hook: ChainHook::ChainStart }));
    assert!(matches!(feed(&mut run, ChainEvent::Ran(Ok(()))), ChainAction::Ask(1)));
    assert!(matches!(feed(&mut run, ChainEvent::Executes(true)), ChainAction::Run { index: 1, hook: ChainHook::ChainStart }));
    assert!(matches!(feed(&mut run, ChainEvent::Ran(Ok(()))), ChainAction::Ask(0)));
    assert!(matches!(feed(&mut run, ChainEvent::Executes(true)), ChainAction::Run { index: 0, hook: ChainHook::Message }));
    assert!(matches!(feed(&mut run, ChainEvent::Ran(Ok(()))), ChainAction::Ask(1)));
    assert!(matches!(feed(&mut run, ChainEvent::Executes(true)), ChainAction::Run { index: 1, hook: ChainHook::Message }));
    assert!(matches!(feed(&mut run, ChainEvent::Ran(Err(Error::RateLimited))), ChainAction::CountError));
    assert!(matches!(run.reported_error(), Some(Error::RateLimited)));
    assert!(matches!(feed(&mut run, ChainEvent::Acknowledged), ChainAction::Ask(0)));
    assert!(matches!(feed(&mut run, ChainEvent::Executes(true)), ChainAction::Run { index: 0, hook: ChainHook::OnError }));
    assert!(matches!(feed(&mut run, ChainEvent::Ran(Err(Error::Cancelled))), ChainAction::Ask(1)));
    assert!(matches!(feed(&mut run, ChainEvent::Executes(false)), ChainAction::Done(Err(Error::RateLimited))));
    assert!(run.is_finished());
    assert!(!run.accepts(&ChainEvent::Acknowledged));
}

#[test]
fn request_pass_completes() {
    let mut chain = EnhancedMiddlewareChain::new();
    chain.add(MiddlewarePriority::High, "only");
    let mut run = chain.start_pass(ChainPass::Request);
    assert!(matches!(feed(&mut run, ChainEvent::Begin), ChainAction::CountRequest));
    assert!(matches!(feed(&mut run, ChainEvent::Acknowledged), ChainAction::Ask(0)));
    assert!(matches!(feed(&mut run, ChainEvent::Executes(false)), ChainAction::Ask(0)));
    assert!(matches!(feed(&mut run, ChainEvent::Executes(true)), ChainAction::Run { index: 0, hook: ChainHook::Message }));
    assert!(matches!(feed(&mut run, ChainEvent::Ran(Ok(()))), ChainAction::Ask(0)));
    assert!(matches!(feed(&mut run, ChainEvent::Executes(true)), ChainAction::Run { index: 0, hook: ChainHook::ChainComplete }));
    assert!(matches!(feed(&mut run, ChainEvent::Ran(Ok(()))), ChainAction::RecordTime));
    assert!(matches!(feed(&mut run, ChainEvent::Acknowledged), ChainAction::Done(Ok(()))));
}

#[test]
fn failed_chain_start_ends_the_pass() {
    let mut run = ChainRun::new(ChainPass::Request, 2);
    assert!(matches!(feed(&mut run, ChainEvent::Begin), ChainAction::CountRequest));
    assert!(matches!(feed(&mut run, ChainEvent::Acknowledged), ChainAction::Ask(0)));
    assert!(matches!(feed(&mut run, ChainEvent::Executes(true)), ChainAction::Run { index: 0, hook: ChainHook::ChainStart }));
    assert!(matches!(feed(&mut run, ChainEvent::Ran(Err(Error::Cancelled))), ChainAction::Done(Err(Error::Cancelled))));
}

#[test]
fn response_pass_runs_in_reverse() {
    let mut run = ChainRun::new(ChainPass::Response, 3);
    assert!(matches!(feed(&mut run, ChainEvent::Begin), ChainAction::Ask(2)));
    assert!(matches!(feed(&mut run, ChainEvent::Executes(false)), ChainAction::Ask(1)));
    assert!(matches!(feed(&mut run, ChainEvent::Executes(true)), ChainAction::Run { index: 1, hook: ChainHook::Message }));
    assert!(matches!(feed(&mut run, ChainEvent::Ran(Ok(()))), ChainAction::Ask(0)));
    assert!(matches!(feed(&mut run, ChainEvent::Executes(true)), ChainAction::Run { index: 0, hook: ChainHook::Message }));
    assert!(matches!(feed(&mut run, ChainEvent::Ran(Ok(()))), ChainAction::RecordTime));
    assert!(matches!(feed(&mut run, ChainEvent::Acknowledged), ChainAction::Done(Ok(()))));
}

#[test]
fn empty_send_pass_only_records_time() {
    let mut run = ChainRun::new(ChainPass::Send, 0);
    assert!(!run.accepts(&ChainEvent::Acknowledged));
    assert!(matches!(feed(&mut run, ChainEvent::Begin), ChainAction::RecordTime));
    assert!(matches!(feed(&mut run, ChainEvent::Acknowledged), ChainAction::Done(Ok(()))));
}
