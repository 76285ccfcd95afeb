use connector_core::error::{ConnectFailure, Error};
use connector_core::pool::{
    connection_limit_of, default_connection_limit, interpret_connect_steps, physical_cores,
    validation_decision, AcquireDecision, ConnectPlan, PoolState, PooledConnection, Quaint,
    QuaintManager, Query, Queryable, ResultSet,
};
use connector_core::value::Value;

#[test]
fn test_default_connection_limit() {
    let conn_string = "file:db/test.db".to_string();
    let pool = Quaint::new(&conn_string).unwrap();
    assert_eq!(
        num_cpus::get_physical() * 2 + 1,
        pool.capacity() as usize
    );
}

#[test]
fn test_custom_connection_limit() {
    let conn_string = "file:db/test.db?connection_limit=10".to_string();
    let pool = Quaint::new(&conn_string).unwrap();
    assert_eq!(10, pool.capacity() as usize);
}

#[test]
fn mysql_custom_connection_limit() {
    let conn_string = "mysql://root@localhost:3306/db?connection_limit=10".to_string();
    let pool = Quaint::new(&conn_string).unwrap();
    assert_eq!(10, pool.capacity() as usize);
    assert!(matches!(pool.manager, QuaintManager::Mysql(_)));
}

#[test]
fn psql_default_connection_limit() {
    let conn_string = "postgresql://root@localhost:5432/db".to_string();
    let pool = Quaint::new(&conn_string).unwrap();
    assert_eq!(
        num_cpus::get_physical() * 2 + 1,
        pool.capacity() as usize
    );
    assert!(matches!(pool.manager, QuaintManager::Postgres(_)));
}

#[test]
fn capacity_is_independent_of_core_count_when_overridden() {
    let url = "postgres://root@localhost/db?connection_limit=10";
    for cores in [1usize, 2, 64] {
        let pool = Quaint::new_with_cores(url, cores).unwrap();
        assert_eq!(pool.capacity(), 10);
    }
    // Without the override the formula applies.
    let pool = Quaint::new_with_cores("postgres://root@localhost/db", 4).unwrap();
    assert_eq!(pool.capacity(), 9);
}

#[test]
fn unrecognized_scheme_is_an_open_failure() {
    match Quaint::new("carrier-pigeon://nowhere") {
        Err(Error::Connect(ConnectFailure::Open)) => {}
        other => panic!("expected an open failure, got {:?}", other),
    }
}

#[test]
fn connection_limit_parsing_edges() {
    // No query string, malformed numbers and zero are all ignored.
    assert_eq!(connection_limit_of("file:db/test.db"), None);
    assert_eq!(connection_limit_of("file:db?connection_limit="), None);
    assert_eq!(connection_limit_of("file:db?connection_limit=ten"), None);
    assert_eq!(connection_limit_of("file:db?connection_limit=0"), None);
    assert_eq!(connection_limit_of("file:db?connection_limit=07"), Some(7));
    // The first matching parameter wins; neighbours do not interfere.
    assert_eq!(
        connection_limit_of("file:db?a=1&connection_limit=7&b=2"),
        Some(7)
    );
    assert_eq!(
        connection_limit_of("file:db?connection_limit=3&connection_limit=4"),
        Some(3)
    );
    // A value beyond the 64-bit range is ignored.
    assert_eq!(
        connection_limit_of("file:db?connection_limit=99999999999999999999999"),
        None
    );
}

#[test]
fn default_limit_follows_the_core_formula() {
    assert_eq!(default_connection_limit(1), 3);
    assert_eq!(default_connection_limit(8), 17);
    assert!(physical_cores() >= 1);
}

#[test]
fn connect_plans_follow_the_backend_variant() {
    let m = QuaintManager::Sqlite {
        file_path: "db/test.db".to_string(),
        db_name: "quaint".to_string(),
    };
    match m.connect_plan() {
        ConnectPlan::OpenSqliteThenAttach { file_path, db_name } => {
            assert_eq!(file_path, "db/test.db");
            assert_eq!(db_name, "quaint");
        }
        other => panic!("expected a sqlite plan, got {:?}", other),
    }
    assert_eq!(m.validation_statement(), "SELECT 1");
    assert!(!m.has_broken());
}

#[test]
fn attach_failure_stays_distinct_from_open_failure() {
    assert!(matches!(
        interpret_connect_steps(false, true),
        Err(Error::Connect(ConnectFailure::Open))
    ));
    assert!(matches!(
        interpret_connect_steps(true, false),
        Err(Error::Connect(ConnectFailure::Attach))
    ));
    assert!(interpret_connect_steps(true, true).is_ok());
    assert!(validation_decision(true));
    assert!(!validation_decision(false));
}

#[test]
fn pool_state_enforces_capacity_and_reuses_released_connections() {
    let mut pool = PoolState::new(2);
    let a = match pool.try_acquire() {
        AcquireDecision::Create(c) => c,
        other => panic!("expected a create, got {:?}", other),
    };
    let b = match pool.try_acquire() {
        AcquireDecision::Create(c) => c,
        other => panic!("expected a create, got {:?}", other),
    };
    assert_ne!(a, b);
    // At capacity with nothing idle: the caller waits.
    assert!(matches!(pool.try_acquire(), AcquireDecision::Wait));
    // A release puts the connection back; the next borrow leases it.
    assert!(pool.release(a));
    match pool.try_acquire() {
        AcquireDecision::Lease(c) => assert_eq!(c, a),
        other => panic!("expected a lease, got {:?}", other),
    }
    // A failed validation discards instead, freeing a capacity slot.
    assert!(pool.discard());
    assert!(matches!(pool.try_acquire(), AcquireDecision::Create(_)));
}

struct EchoBackend {
    last: String,
}

impl Queryable for EchoBackend {
    fn execute(&mut self, q: &Query) -> Result<Option<Value>, Error> {
        self.last = q.text.clone();
        Ok(Some(Value::Int(1)))
    }

    fn query(&mut self, q: &Query) -> Result<ResultSet, Error> {
        self.last = q.text.clone();
        Ok(ResultSet { columns: vec![], rows: vec![] })
    }

    fn query_raw(&mut self, sql: &str, _params: &Vec<Value>) -> Result<ResultSet, Error> {
        self.last = sql.to_string();
        Ok(ResultSet { columns: vec![], rows: vec![] })
    }

    fn execute_raw(&mut self, sql: &str, _params: &Vec<Value>) -> Result<u64, Error> {
        self.last = sql.to_string();
        Ok(0)
    }

    fn turn_off_fk_constraints(&mut self) -> Result<(), Error> {
        self.last = "fk off".to_string();
        Ok(())
    }

    fn turn_on_fk_constraints(&mut self) -> Result<(), Error> {
        self.last = "fk on".to_string();
        Ok(())
    }

    fn raw_cmd(&mut self, cmd: &str) -> Result<(), Error> {
        self.last = cmd.to_string();
        Ok(())
    }
}

#[test]
fn pooled_connection_forwards_verbatim() {
    let mut conn = PooledConnection { inner: EchoBackend { last: String::new() } };
    let q = Query { text: "q1".to_string(), params: vec![] };
    assert!(matches!(conn.execute(&q), Ok(Some(Value::Int(1)))));
    assert_eq!(conn.inner.last, "q1");
    conn.raw_cmd("SELECT 1").unwrap();
    assert_eq!(conn.inner.last, "SELECT 1");
    conn.turn_off_fk_constraints().unwrap();
    assert_eq!(conn.inner.last, "fk off");
}
